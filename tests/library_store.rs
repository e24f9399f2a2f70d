use cbz_library::comic_info::{CbzViewer, ComicInfo};
use cbz_library::error::AppError;
use cbz_library::file_manager::{
    first_present, FileManager, LibraryChild, LibraryEntry, MetadataSource,
};
use std::io::{Cursor, Write};
use zip::write::SimpleFileOptions;
use zip::{CompressionMethod, ZipWriter};

fn make_archive(entries: &[(&str, &[u8])]) -> Vec<u8> {
    let mut writer = ZipWriter::new(Cursor::new(Vec::new()));
    let options = SimpleFileOptions::default().compression_method(CompressionMethod::Deflated);
    for (name, data) in entries {
        writer.start_file(*name, options).unwrap();
        writer.write_all(data).unwrap();
    }
    writer.finish().unwrap().into_inner()
}

fn store() -> FileManager {
    FileManager::new("/lib/comics".to_string())
}

fn file(name: &str) -> LibraryEntry {
    LibraryEntry { name: name.to_string(), is_file: true, is_dir: false, children: vec![] }
}

fn folder(name: &str, children: &[(&str, bool)]) -> LibraryEntry {
    LibraryEntry {
        name: name.to_string(),
        is_file: false,
        is_dir: true,
        children: children
            .iter()
            .map(|(n, f)| LibraryChild { name: n.to_string(), is_file: *f })
            .collect(),
    }
}

#[test]
fn full_path_uses_stem_folder() {
    assert_eq!(
        store().get_full_path("Batman01.cbz"),
        Ok("/lib/comics/Batman01/Batman01.cbz".to_string())
    );
}

#[test]
fn full_path_of_name_with_two_dots() {
    assert_eq!(
        store().get_full_path("a.b.cbz"),
        Ok("/lib/comics/a.b/a.b.cbz".to_string())
    );
}

#[test]
fn full_path_without_stem() {
    assert_eq!(store().get_full_path(""), Err(AppError::InvalidName));
    assert_eq!(store().get_full_path(".."), Err(AppError::InvalidName));
}

#[test]
fn title_key_is_stem() {
    assert_eq!(FileManager::title_key("/src/X-Men 1.CBR"), Ok("X-Men 1".to_string()));
}

#[test]
fn add_file_plans_copy() {
    let plan = store().add_file("/downloads/Batman01.cbz").unwrap();
    assert_eq!(plan.folder, "/lib/comics/Batman01");
    assert_eq!(plan.destination, "/lib/comics/Batman01/Batman01.cbz");
}

#[test]
fn add_file_accepts_extensions_in_any_case() {
    for name in ["a.CBZ", "b.cbr", "c.Zip", "d.RAR"] {
        assert!(store().add_file(name).is_ok(), "{}", name);
    }
}

#[test]
fn add_file_rejects_text_file_before_copy() {
    assert!(matches!(store().add_file("/downloads/notes.txt"), Err(AppError::UnsupportedFormat)));
}

#[test]
fn add_file_rejects_missing_extension() {
    assert!(matches!(store().add_file("/downloads/comic"), Err(AppError::UnsupportedFormat)));
}

#[test]
fn cover_from_jpeg_uri() {
    let f = store()
        .copy_cover_image("/lib/comics/T", "data:image/jpeg;base64,AQID")
        .unwrap();
    assert_eq!(f.path, "/lib/comics/T/cover.jpg");
    assert_eq!(f.bytes, vec![1, 2, 3]);
}

#[test]
fn cover_from_png_uri() {
    let f = store().copy_cover_image("/t", "data:image/png;base64,CQk=").unwrap();
    assert_eq!(f.path, "/t/cover.png");
    assert_eq!(f.bytes, vec![9, 9]);
}

#[test]
fn cover_of_other_type_is_unsupported() {
    assert!(matches!(
        store().copy_cover_image("/t", "data:image/gif;base64,AQID"),
        Err(AppError::UnsupportedFormat)
    ));
}

#[test]
fn cover_without_payload() {
    assert!(matches!(
        store().copy_cover_image("/t", "data:image/png;base64"),
        Err(AppError::Serialization)
    ));
}

#[test]
fn cover_with_bad_base64() {
    assert!(matches!(
        store().copy_cover_image("/t", "data:image/png;base64,A!=="),
        Err(AppError::Serialization)
    ));
}

#[test]
fn listing_keeps_cbz_files_only() {
    let entries = vec![
        file("loose.cbz"),
        file("loose.CBZ"),
        file("notes.txt"),
        folder("Batman01", &[("Batman01.cbz", true), ("metadata.json", true), ("cover.jpg", true)]),
        folder("Other", &[("Other.cbr", true), ("inner.cbz", false)]),
    ];
    assert_eq!(
        store().list_files(&entries),
        vec!["loose.cbz".to_string(), "Batman01.cbz".to_string()]
    );
}

#[test]
fn listing_of_empty_library() {
    assert!(store().list_files(&vec![]).is_empty());
}

#[test]
fn metadata_lookup_prefers_side_file() {
    match store().metadata_lookup("Batman01.cbz", true, true) {
        Ok(MetadataSource::SideFile(p)) => assert_eq!(p, "/lib/comics/Batman01/metadata.json"),
        _ => panic!("expected the side-file"),
    }
}

#[test]
fn metadata_lookup_falls_back_to_archive() {
    match store().metadata_lookup("Batman01.cbz", false, true) {
        Ok(MetadataSource::Archive(p)) => assert_eq!(p, "/lib/comics/Batman01/Batman01.cbz"),
        _ => panic!("expected the archive"),
    }
}

#[test]
fn metadata_path_for_edit() {
    assert_eq!(
        store().metadata_file_path("Batman01.cbz"),
        Ok("/lib/comics/Batman01/metadata.json".to_string())
    );
}

#[test]
fn cover_candidates_in_probe_order() {
    let c = store().cover_candidates("T.cbz").unwrap();
    let got: Vec<(String, String)> = c.into_iter().map(|c| (c.path, c.mime)).collect();
    assert_eq!(
        got,
        vec![
            ("/lib/comics/T/cover.jpg".to_string(), "image/jpeg".to_string()),
            ("/lib/comics/T/cover.jpeg".to_string(), "image/jpeg".to_string()),
            ("/lib/comics/T/cover.png".to_string(), "image/png".to_string()),
            ("/lib/comics/T/cover.webp".to_string(), "image/webp".to_string()),
        ]
    );
}

#[test]
fn first_present_cover() {
    assert_eq!(first_present(&vec![false, false, true, true]), Some(2));
    assert_eq!(first_present(&vec![false, false, false, false]), None);
}

#[test]
fn ingest_batman_scenario() {
    let page = vec![0xff, 0xd8, 0xff, 0xe0, 1, 2, 3];
    let data = make_archive(&[
        ("ComicInfo.xml", b"<ComicInfo><Title>Batman</Title><Year>1989</Year></ComicInfo>"),
        ("page1.jpg", &page),
    ]);
    let fm = store();
    let plan = fm.add_file("/downloads/Batman01.cbz").unwrap();
    assert_eq!(plan.destination, "/lib/comics/Batman01/Batman01.cbz");
    let meta = CbzViewer::read_comic_info(data.clone()).unwrap();
    assert_eq!(
        meta,
        ComicInfo {
            title: "Batman".to_string(),
            series: String::new(),
            writer: String::new(),
            summary: String::new(),
            year: "1989".to_string(),
        }
    );
    let uri = CbzViewer::extract_cover_image(data).unwrap().unwrap();
    assert!(uri.starts_with("data:image/jpeg;base64,"));
    let cover = fm.copy_cover_image(&plan.folder, &uri).unwrap();
    assert_eq!(cover.path, "/lib/comics/Batman01/cover.jpg");
    assert_eq!(cover.bytes, page);
    let listing = vec![folder("Batman01", &[("Batman01.cbz", true), ("metadata.json", true), ("cover.jpg", true)])];
    assert!(fm.list_files(&listing).contains(&"Batman01.cbz".to_string()));
}

#[test]
fn delete_batman_scenario() {
    let fm = store();
    assert_eq!(fm.title_folder("Batman01.cbz"), Ok("/lib/comics/Batman01".to_string()));
    let listing = vec![folder("Other", &[("Other.cbz", true)])];
    assert!(!fm.list_files(&listing).contains(&"Batman01.cbz".to_string()));
    assert!(matches!(fm.metadata_lookup("Batman01.cbz", false, false), Err(AppError::NotFound)));
}
