
use cbz_library::comic_info::{CbzViewer, ComicInfo};
use cbz_library::error::AppError;
use std::io::{Cursor, Write};
use zip::write::SimpleFileOptions;
use zip::{CompressionMethod, ZipWriter};

fn make_archive(entries: &[(&str, &[u8])]) -> Vec<u8> {
    let mut writer = ZipWriter::new(Cursor::new(Vec::new()));
    let options = SimpleFileOptions::default().compression_method(CompressionMethod::Stored);
    for (name, data) in entries {
        writer.start_file(*name, options).unwrap();
        writer.write_all(data).unwrap();
    }
    writer.finish().unwrap().into_inner()
}

fn info(title: &str, series: &str, writer: &str, summary: &str, year: &str) -> ComicInfo {
    ComicInfo {
        title: title.to_string(),
        series: series.to_string(),
        writer: writer.to_string(),
        summary: summary.to_string(),
        year: year.to_string(),
    }
}

#[test]
fn tag_value_is_trimmed() {
    let text = "<Series>\n   Dark Knight \t</Series>";
    assert_eq!(CbzViewer::extract_tag_value(text, "Series"), Some("Dark Knight".to_string()));
}

#[test]
fn tag_value_absent_tag() {
    assert_eq!(CbzViewer::extract_tag_value("<Title>X</Title>", "Writer"), None);
    assert_eq!(CbzViewer::extract_tag_value("<Title>X", "Title"), None);
}

#[test]
fn tag_value_closing_before_opening() {
    assert_eq!(CbzViewer::extract_tag_value("</Title> x <Title>", "Title"), None);
}

#[test]
fn tag_value_uses_first_occurrences() {
    let text = "<Title> a </Title><Title>b</Title>";
    assert_eq!(CbzViewer::extract_tag_value(text, "Title"), Some("a".to_string()));
}

#[test]
fn tag_value_unicode_white_space() {
    let text = "<Year>\u{3000}1989\u{a0}</Year>";
    assert_eq!(CbzViewer::extract_tag_value(text, "Year"), Some("1989".to_string()));
}

#[test]
fn parse_tags_in_any_order() {
    let text = "<Year> 2001 </Year><Writer>Moore</Writer>\n<Title>\tWatchmen\n</Title>";
    assert_eq!(CbzViewer::parse_comic_info(text), info("Watchmen", "", "Moore", "", "2001"));
}

#[test]
fn read_metadata_from_archive() {
    let xml = b"<ComicInfo><Summary>  Night  </Summary><Series>S</Series><Title>T</Title></ComicInfo>";
    let data = make_archive(&[("page1.jpg", b"\xff\xd8"), ("ComicInfo.xml", xml)]);
    assert_eq!(CbzViewer::read_comic_info(data), Ok(info("T", "S", "", "Night", "")));
}

#[test]
fn read_metadata_descriptor_name_any_case() {
    let data = make_archive(&[("meta/COMICINFO.XML", b"<Title>Up</Title>")]);
    assert_eq!(CbzViewer::read_comic_info(data), Ok(info("Up", "", "", "", "")));
}

#[test]
fn read_metadata_first_descriptor_wins() {
    let data = make_archive(&[
        ("a/comicinfo.xml", b"<Title>First</Title>"),
        ("b/ComicInfo.xml", b"<Title>Second</Title>"),
    ]);
    assert_eq!(CbzViewer::read_comic_info(data).unwrap().title, "First");
}

#[test]
fn read_metadata_without_descriptor() {
    let data = make_archive(&[("page1.jpg", b"x"), ("notes.txt", b"y")]);
    assert_eq!(CbzViewer::read_comic_info(data), Err(AppError::NotFound));
}

#[test]
fn read_metadata_not_an_archive() {
    assert_eq!(CbzViewer::read_comic_info(b"not a zip".to_vec()), Err(AppError::Archive));
}

#[test]
fn read_metadata_descriptor_not_utf8() {
    let data = make_archive(&[("ComicInfo.xml", b"\xff\xfe<Title>")]);
    assert_eq!(CbzViewer::read_comic_info(data), Err(AppError::Archive));
}

#[test]
fn cover_is_first_image_in_archive_order() {
    let data = make_archive(&[("z.png", &[1, 2, 3]), ("a.jpg", &[4, 5, 6])]);
    assert_eq!(
        CbzViewer::extract_cover_image(data),
        Ok(Some("data:image/png;base64,AQID".to_string()))
    );
}

#[test]
fn cover_absent_without_images() {
    let data = make_archive(&[("ComicInfo.xml", b"<Title>T</Title>"), ("cover.gif", b"g")]);
    assert_eq!(CbzViewer::extract_cover_image(data), Ok(None));
}

#[test]
fn cover_upper_case_extension_is_jpeg() {
    let data = make_archive(&[("COVER.JPG", &[0xff])]);
    assert_eq!(
        CbzViewer::extract_cover_image(data),
        Ok(Some("data:image/jpeg;base64,/w==".to_string()))
    );
}

#[test]
fn image_list_sorted_by_lower_case_name() {
    let data = make_archive(&[
        ("b.PNG", b"1"),
        ("info.txt", b"2"),
        ("A.jpg", b"3"),
        ("c.jpg", b"4"),
        ("a2.png", b"5"),
    ]);
    assert_eq!(
        CbzViewer::get_image_list(data),
        Ok(vec!["A.jpg".to_string(), "a2.png".to_string(), "b.PNG".to_string(), "c.jpg".to_string()])
    );
}

#[test]
fn image_list_ties_keep_archive_order() {
    let data = make_archive(&[("P.jpg", b"1"), ("p.jpg", b"2")]);
    assert_eq!(
        CbzViewer::get_image_list(data),
        Ok(vec!["P.jpg".to_string(), "p.jpg".to_string()])
    );
}

#[test]
fn image_list_repeated_calls_agree() {
    let data = make_archive(&[("2.jpg", b"1"), ("10.jpg", b"2"), ("1.png", b"3")]);
    let first = CbzViewer::get_image_list(data.clone());
    let second = CbzViewer::get_image_list(data);
    assert_eq!(first, second);
    assert_eq!(
        first,
        Ok(vec!["1.png".to_string(), "10.jpg".to_string(), "2.jpg".to_string()])
    );
}

#[test]
fn page_count_matches_image_list() {
    let data = make_archive(&[("x.jpg", b"1"), ("y.txt", b"2"), ("z.png", b"3")]);
    assert_eq!(CbzViewer::get_page_count(data.clone()), Ok(2));
    assert_eq!(CbzViewer::get_image_list(data).unwrap().len(), 2);
}

#[test]
fn page_count_of_empty_archive() {
    let data = make_archive(&[]);
    assert_eq!(CbzViewer::get_page_count(data), Ok(0));
}

#[test]
fn load_image_index_at_count_is_out_of_range() {
    let data = make_archive(&[("b.jpg", b"1"), ("a.jpg", b"2")]);
    let count = CbzViewer::get_image_list(data.clone()).unwrap().len();
    assert_eq!(CbzViewer::load_image_by_index(data, count), Err(AppError::IndexOutOfRange));
}

#[test]
fn load_image_by_index_in_reading_order() {
    let data = make_archive(&[("b.png", &[9, 9]), ("a.jpg", &[1, 2, 3])]);
    assert_eq!(
        CbzViewer::load_image_by_index(data.clone(), 0),
        Ok("data:image/jpeg;base64,AQID".to_string())
    );
    assert_eq!(
        CbzViewer::load_image_by_index(data, 1),
        Ok("data:image/png;base64,CQk=".to_string())
    );
}

#[test]
fn load_images_all_pages() {
    let data = make_archive(&[("2.png", &[2]), ("1.jpg", &[1])]);
    assert_eq!(
        CbzViewer::load_images(data),
        Ok(vec!["data:image/jpeg;base64,AQ==".to_string(), "data:image/png;base64,Ag==".to_string()])
    );
}

#[test]
fn page_functions_reject_garbage() {
    let junk = vec![0u8; 16];
    assert_eq!(CbzViewer::get_image_list(junk.clone()), Err(AppError::Archive));
    assert_eq!(CbzViewer::get_page_count(junk.clone()), Err(AppError::Archive));
    assert_eq!(CbzViewer::load_image_by_index(junk.clone(), 0), Err(AppError::Archive));
    assert_eq!(CbzViewer::load_images(junk.clone()), Err(AppError::Archive));
    assert_eq!(CbzViewer::extract_cover_image(junk), Err(AppError::Archive));
}

#[test]
fn data_uri_of_bytes() {
    assert_eq!(
        cbz_library::data_uri::image_data_uri("image/webp", &[0, 0, 0]),
        "data:image/webp;base64,AAAA"
    );
}

