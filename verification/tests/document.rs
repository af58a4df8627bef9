use soundscout::document::asset_document;
use soundscout::models::Asset;

fn asset(filename: &str, folder: &str) -> Asset {
    Asset {
        id: 1,
        path: format!("{folder}/{filename}.wav"),
        filename: filename.into(),
        extension: "wav".into(),
        folder: folder.into(),
        duration_ms: Some(1000),
        sample_rate: Some(44100),
        channels: Some(2),
        bit_depth: Some(16),
        file_size: 10,
        category: None,
        publisher: None,
        favorite: false,
        rating: 0,
        notes: None,
        play_count: 0,
    }
}

#[test]
fn document_lists_names_folder_metadata_and_tags() {
    let mut a = asset("Rain_Heavy-01", "/lib/Boom/Rain_Loops");
    a.category = Some(" Weather ".into());
    a.notes = Some("   ".into());
    let doc = asset_document(&a, &vec!["wet".into(), "storm".into()]);
    assert_eq!(
        doc,
        "Rain_Heavy-01 Rain Heavy 01 /lib/Boom/Rain_Loops lib Boom Rain Loops Weather wet storm"
    );
}

#[test]
fn plain_names_are_not_repeated() {
    let mut a = asset("thunder", "");
    a.publisher = Some("Boom\tLibrary".into());
    assert_eq!(asset_document(&a, &vec![]), "thunder Boom Library");
}

#[test]
fn empty_asset_gives_empty_document() {
    assert_eq!(asset_document(&asset("", ""), &vec![]), "");
}
