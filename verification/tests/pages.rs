use lll::common::{
    build_directory_listing_page, build_not_found_page, render_page, DirChild, FILE_SVG_ICON,
    FOLDER_SVG_ICON, PAGE_HEAD, PAGE_MIDDLE, PAGE_TAIL,
};
use lll::config::{generate_not_found_page, Config};
use lll::mime_types::MimeTypes;

#[test]
fn not_found_page_exact() {
    let expected = format!(
        "{}Error Response{}<h1>404 Not Found</h1><p>Nothing matches the given URI</p>{}",
        PAGE_HEAD, PAGE_MIDDLE, PAGE_TAIL
    );
    assert_eq!(build_not_found_page(), expected);
    assert_eq!(generate_not_found_page(), expected);
}

#[test]
fn render_page_splices_template() {
    let page = render_page("T", "C");
    assert_eq!(page, format!("{}T{}C{}", PAGE_HEAD, PAGE_MIDDLE, PAGE_TAIL));
}

#[test]
fn listing_page_exact() {
    let children = vec![
        DirChild { name: String::from("a.txt"), is_dir: false },
        DirChild { name: String::from("b"), is_dir: true },
    ];
    let page = build_directory_listing_page("/", "/root", "/root", &children);
    let links = format!(
        "<li><a href=\"/b/\">{} b</a></li><li><a href=\"/a.txt\">{} a.txt</a></li>",
        FOLDER_SVG_ICON, FILE_SVG_ICON
    );
    let content = format!("<h1>Directory Listing for /</h1>\n<ul>{}</ul>", links);
    let expected = format!("{}Directory Listing{}{}{}", PAGE_HEAD, PAGE_MIDDLE, content, PAGE_TAIL);
    assert_eq!(page, expected);
}

#[test]
fn listing_page_nested_directory() {
    let children = vec![DirChild { name: String::from("notes.txt"), is_dir: false }];
    let page = build_directory_listing_page("/docs/", "/root", "/root/docs", &children);
    assert!(page.contains("<h1>Directory Listing for /docs/</h1>"));
    assert!(page.contains("<a href=\"/docs/notes.txt\""));
}

#[test]
fn ties_keep_enumeration_order() {
    let children = vec![
        DirChild { name: String::from("z.txt"), is_dir: false },
        DirChild { name: String::from("a.txt"), is_dir: false },
        DirChild { name: String::from("zz"), is_dir: true },
        DirChild { name: String::from("aa"), is_dir: true },
    ];
    let page = build_directory_listing_page("/", "/root", "/root", &children);
    // directories first, each group in the order the filesystem reported
    let zz = page.find("href=\"/zz/\"").unwrap();
    let aa = page.find("href=\"/aa/\"").unwrap();
    let z = page.find("href=\"/z.txt\"").unwrap();
    let a = page.find("href=\"/a.txt\"").unwrap();
    assert!(zz < aa && aa < z && z < a);
}

#[test]
fn empty_directory_lists_nothing() {
    let page = build_directory_listing_page("/", "/root", "/root", &Vec::new());
    assert!(page.contains("<ul></ul>"));
}

#[test]
fn mime_lookup() {
    let mime = MimeTypes::new();
    assert_eq!(mime.get_content_type("html"), "Content-Type: text/html");
    assert_eq!(mime.get_content_type("aac"), "Content-Type: audio/aac");
    assert_eq!(mime.get_content_type("7z"), "Content-Type: application/x-7z-compressed");
    // unknown and empty extensions fall back to the generic binary type
    assert_eq!(mime.get_content_type("unknown-ext"), "Content-Type: application/octet-stream");
    assert_eq!(mime.get_content_type(""), "Content-Type: application/octet-stream");
}

#[test]
fn config_bundles_table_and_mime_lookup() {
    let mut config = Config::new(String::from("/srv"), None);
    config.urls_table.map_urls_from(
        "/srv",
        &vec![DirChild { name: String::from("x.css"), is_dir: false }],
        0,
    );
    assert!(config.urls_table.contains_url_entry("/x.css"));
    assert_eq!(config.mime_types.get_content_type("css"), "Content-Type: text/css");
}
