use manga_pdf::assembly::{
    assemble_document, child_path, document_file_name, document_pages, page_file_name, page_image,
    DocumentError, PageError,
};
use manga_pdf::extract::{chapter_links, page_links, ExtractError};
use manga_pdf::headers::{get_request_headers, host_of, resolve_link, site_root, UrlError};

fn png_bytes(w: u32, h: u32, shade: u8) -> Vec<u8> {
    let img = image::RgbImage::from_pixel(w, h, image::Rgb([shade, 10, 200]));
    let mut out: Vec<u8> = Vec::new();
    image::DynamicImage::ImageRgb8(img)
        .write_to(&mut std::io::Cursor::new(&mut out), image::ImageFormat::Png)
        .unwrap();
    out
}

#[test]
fn host_header_is_url_host() {
    let headers = get_request_headers("https://example.com/x").unwrap();
    let host: Vec<&(String, String)> = headers.iter().filter(|(n, _)| n == "Host").collect();
    assert_eq!(host.len(), 1);
    assert_eq!(host[0].1, "example.com");
    assert_eq!(headers.len(), 7);
    assert_eq!(headers[5], ("Referer".to_string(), "https://manganelo.com/".to_string()));
    assert_eq!(headers[6], ("Connection".to_string(), "keep-alive".to_string()));
}

#[test]
fn malformed_url_is_an_error() {
    assert_eq!(get_request_headers("not-a-url"), Err(UrlError::Malformed));
    assert_eq!(host_of("not-a-url"), Err(UrlError::Malformed));
}

#[test]
fn url_without_host_is_an_error() {
    assert_eq!(host_of("mailto:someone@example.com"), Err(UrlError::NoHost));
}

#[test]
fn site_root_and_links() {
    let root = site_root("https://ww8.manganelo.tv/manga/abc?x=1").unwrap();
    assert_eq!(root, "https://ww8.manganelo.tv");
    assert_eq!(resolve_link(&root, "/chapter/abc/1"), "https://ww8.manganelo.tv/chapter/abc/1");
}

#[test]
fn chapter_links_in_document_order() {
    let doc = r#"<html><body><ul>
        <li><a class="chapter-name text-nowrap" href="/ch/2">  Chapter 2 </a></li>
        <li><a class="chapter-name" href="/ignored">Chapter 9</a></li>
        <li><a class="chapter-name text-nowrap" href="/ch/1">Chapter 1</a></li>
        </ul></body></html>"#;
    let v = chapter_links(doc).unwrap();
    assert_eq!(v.len(), 2);
    assert_eq!((v[0].name.as_str(), v[0].link.as_str()), ("Chapter 2", "/ch/2"));
    assert_eq!((v[1].name.as_str(), v[1].link.as_str()), ("Chapter 1", "/ch/1"));
}

#[test]
fn chapter_links_absent_is_an_error() {
    assert_eq!(chapter_links("<html><body><p>moved</p></body></html>").unwrap_err(), ExtractError::NotFound);
}

#[test]
fn chapter_link_without_href_is_an_error() {
    let doc = r#"<a class="chapter-name text-nowrap" href="/a">Chapter 1</a><a class="chapter-name text-nowrap">Chapter 2</a>"#;
    assert_eq!(chapter_links(doc).unwrap_err(), ExtractError::MissingAttribute(1));
}

#[test]
fn page_links_from_first_reader() {
    let doc = r#"<html><body>
        <img data-src="https://cdn/x.jpg">
        <div class="container-chapter-reader">
          <img src="a-eager" data-src="https://cdn/0.webp">
          <p><img data-src="https://cdn/1.png"></p>
          <img data-src="https://cdn/2.jpg">
        </div>
        <div class="container-chapter-reader"><img data-src="https://cdn/other.jpg"></div>
        </body></html>"#;
    let v = page_links(doc).unwrap();
    assert_eq!(v, vec!["https://cdn/0.webp", "https://cdn/1.png", "https://cdn/2.jpg"]);
}

#[test]
fn page_links_without_reader_is_an_error() {
    assert_eq!(page_links("<div class=\"other\"><img data-src=\"a\"></div>"), Err(ExtractError::NotFound));
}

#[test]
fn page_image_without_lazy_source_is_an_error() {
    let doc = r#"<div class="container-chapter-reader"><img data-src="a"><img src="b"></div>"#;
    assert_eq!(page_links(doc), Err(ExtractError::MissingAttribute(1)));
}

#[test]
fn empty_reader_has_no_pages() {
    assert_eq!(page_links(r#"<div class="container-chapter-reader"></div>"#), Ok(vec![]));
}

#[test]
fn file_names() {
    assert_eq!(page_file_name(0), "0.jpg");
    assert_eq!(page_file_name(17), "17.jpg");
    assert_eq!(document_file_name("Chapter 1.5"), "Chapter 1.5.pdf");
    assert_eq!(child_path("/home/u", "Chapter 2"), "/home/u/Chapter 2");
}

#[test]
fn failed_status_is_not_decoded() {
    assert_eq!(page_image(false, &png_bytes(2, 2, 0)), Err(PageError::HttpStatus));
}

#[test]
fn undecodable_body_is_a_codec_error() {
    assert_eq!(page_image(true, &b"<html>not found</html>".to_vec()), Err(PageError::Codec));
    assert_eq!(page_image(true, &Vec::new()), Err(PageError::Codec));
}

#[test]
fn page_is_reencoded_as_jpeg() {
    let png = png_bytes(3, 2, 50);
    let jpeg = page_image(true, &png).unwrap();
    assert_ne!(jpeg, png);
    assert_eq!(&jpeg[..2], &[0xFF, 0xD8]);
    let back = image::load_from_memory(&jpeg).unwrap();
    assert_eq!((back.width(), back.height()), (3, 2));
}

#[test]
fn all_pages_kept_in_position_order() {
    let pages = document_pages(vec![Some(vec![0u8]), Some(vec![1u8]), Some(vec![2u8])]);
    assert_eq!(pages, vec![vec![0u8], vec![1u8], vec![2u8]]);
}

#[test]
fn missing_middle_page_leaves_gap() {
    let pages = document_pages(vec![Some(vec![0u8, 0]), None, Some(vec![2u8])]);
    assert_eq!(pages, vec![vec![0u8, 0], vec![2u8]]);
}

#[test]
fn no_pages_read() {
    assert!(document_pages(vec![None, None]).is_empty());
}

#[test]
fn document_from_jpeg_pages() {
    let a = page_image(true, &png_bytes(4, 4, 1)).unwrap();
    let c = page_image(true, &png_bytes(5, 3, 90)).unwrap();
    let doc = assemble_document(vec![Some(a), None, Some(c)]).unwrap();
    assert_eq!(&doc[..4], b"%PDF");
}

#[test]
fn document_rejects_non_jpeg_page() {
    let a = page_image(true, &png_bytes(4, 4, 1)).unwrap();
    let r = assemble_document(vec![Some(a), None, Some(b"garbage".to_vec())]);
    assert_eq!(r, Err(DocumentError::Encode(1)));
}
