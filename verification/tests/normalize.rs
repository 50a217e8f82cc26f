use lll::normalize_url;

#[test]
fn strips_query_and_index_segment() {
    assert_eq!(normalize_url("/a/b/index.html?x=1"), "/a/b/");
}

#[test]
fn plain_file_url_unchanged() {
    assert_eq!(normalize_url("/a/b"), "/a/b");
}

#[test]
fn root_is_fixed_point() {
    assert_eq!(normalize_url("/"), "/");
}

#[test]
fn empty_target_collapses_to_root() {
    assert_eq!(normalize_url(""), "/");
}

#[test]
fn duplicate_slashes_collapse() {
    assert_eq!(normalize_url("//a///b"), "/a/b");
    assert_eq!(normalize_url("a//b"), "/a/b");
}

#[test]
fn inner_index_segment_dropped() {
    assert_eq!(normalize_url("/a/index.html/b"), "/a/b");
    assert_eq!(normalize_url("/index.html"), "/");
}

#[test]
fn query_only_target() {
    assert_eq!(normalize_url("/?search=hello"), "/");
    assert_eq!(normalize_url("/one/two/?search=hello"), "/one/two/");
}

#[test]
fn trailing_slash_preserved() {
    assert_eq!(normalize_url("/one/two/"), "/one/two/");
}

#[test]
fn normalize_is_idempotent_on_samples() {
    let samples = [
        "/a/b/index.html?x=1",
        "a//b",
        "",
        "/",
        "/one/two/",
        "/x/index.html/y/?q=1",
        "index.html?only=query",
        "weird?//index.html",
    ];
    for s in samples {
        let once = normalize_url(s);
        assert_eq!(normalize_url(&once), once);
    }
}
