//! The shared page template, the folder and file icons, and the renderers
//! for the not-found page and the directory-listing page. The listing is a
//! pure function of a directory's children: one `<li>` hyperlink per child,
//! directories before files, ties kept in enumeration order.
use vstd::prelude::*;
use vstd::string::StrSliceExecFns;
use vstd::string::StringExecFns;

verus! {

use crate::spec_normalize;
use crate::normalize_url;
use crate::utils::spec_join;
use crate::utils::str_eq;
use crate::utils::str_has_prefix;
use crate::utils::join_path;

/// Template text before the page title.
pub const PAGE_HEAD: &'static str = r#"
<!DOCTYPE html>
<html lang="en">
<head>
    <meta charset="UTF-8">
    <meta http-equiv="X-UA-Compatible" content="IE=edge">
    <meta name="viewport" content="width=device-width, initial-scale=1.0">
    <title>"#;

/// Template text between the page title and the body content.
pub const PAGE_MIDDLE: &'static str = r#"</title>
    <style>
        body {
            background-color: #000000;
            color: #f5f5f5;
            padding: 0px 50px;
        }

        a {
            display: block;
            color: #948bff;
            padding: 2px 10px;
            border-radius: 5px;
            text-decoration: none;
        }

        a:hover {
            background-color: #090909;
        }

        ul {
            padding: 10px 0px;
            border-top: 1px solid #1a1a1a;
            border-bottom: 1px solid #1a1a1a;
        }

        li {
            list-style-type: none;
        }

        li:nth-child(n + 2) {
            margin-top: 5px;
        }

        svg {
            vertical-align: middle;
        }
    </style>
</head>
<body>
    "#;

/// Template text after the body content.
pub const PAGE_TAIL: &'static str = r#"
</body>
</html>
"#;

/// Icon shown next to a file entry in a directory listing.
pub const FILE_SVG_ICON: &'static str = r##"
<svg width="40px" height="40px" viewBox="0 0 1024 1024" class="icon" version="1.1"
    xmlns="http://www.w3.org/2000/svg">
    <path
        d="M576 102.4H268.8c-14.08 0-25.6 11.52-25.6 25.6v742.4c0 14.08 11.52 25.6 25.6 25.6h512c14.08 0 25.6-11.52 25.6-25.6V332.8L576 102.4z"
        fill="#00B2AE" />
    <path d="M576 307.2c0 14.08 11.52 25.6 25.6 25.6h204.8L576 102.4v204.8z" fill="#008181" />
    <path d="M332.8 614.4h371.2v25.6H332.8z" fill="#231C1C" />
    <path d="M332.8 716.8h371.2v25.6H332.8z" fill="#231C1C" />
</svg>"##;

/// Icon shown next to a directory entry in a directory listing.
pub const FOLDER_SVG_ICON: &'static str = r##"
<svg width="40px" height="40px" viewBox="0 0 1024 1024" class="icon" version="1.1"
        xmlns="http://www.w3.org/2000/svg" fill="#000000">
        <g id="SVGRepo_iconCarrier">
            <path
                d="M563.2 358.4c0 14.08-11.52 25.6-25.6 25.6H153.6c-14.08 0-25.6-11.52-25.6-25.6V166.4c0-14.08 11.52-25.6 25.6-25.6h230.4c14.08 0 25.6 11.52 25.6 25.6l153.6 192z"
                fill="#D3AC51"></path>
            <path
                d="M921.6 768c0 14.08-11.52 25.6-25.6 25.6H153.6c-14.08 0-25.6-11.52-25.6-25.6V256c0-14.08 11.52-25.6 25.6-25.6h742.4c14.08 0 25.6 11.52 25.6 25.6v512z"
                fill="#FAC546"></path>
        </g>
    </svg>"##;

/// A full page: the shared template around a title and a content block.
pub open spec fn spec_page(title: Seq<char>, content: Seq<char>) -> Seq<char> {
    PAGE_HEAD@ + title + PAGE_MIDDLE@ + content + PAGE_TAIL@
}

/// Wrap `content` in the shared page template under `title`.
pub fn render_page(title: &str, content: &str) -> (r: String)
    ensures
        r@ == spec_page(title@, content@),
{
    let mut out = String::from_str(PAGE_HEAD);
    out.append(title);
    out.append(PAGE_MIDDLE);
    out.append(content);
    out.append(PAGE_TAIL);
    proof {
        assert(out@ =~= spec_page(title@, content@));
    }
    out
}

/// The body of the fixed response for a URL that maps to nothing.
pub open spec fn spec_not_found_content() -> Seq<char> {
    "<h1>404 Not Found</h1><p>Nothing matches the given URI</p>"@
}

/// The fixed page served when a URL resolves to nothing on disk.
pub fn build_not_found_page() -> (r: String)
    ensures
        r@ == spec_page("Error Response"@, spec_not_found_content()),
{
    render_page("Error Response", "<h1>404 Not Found</h1><p>Nothing matches the given URI</p>")
}

/// One immediate child of a scanned directory, as the filesystem reported
/// it: its name and whether it is itself a directory.
pub struct DirChild {
    pub name: String,
    pub is_dir: bool,
}

/// The mathematical image of a [`DirChild`].
pub struct ChildView {
    pub name: Seq<char>,
    pub is_dir: bool,
}

impl View for DirChild {
    type V = ChildView;

    open spec fn view(&self) -> ChildView {
        ChildView { name: self.name@, is_dir: self.is_dir }
    }
}

/// The views of a sequence of children.
pub open spec fn child_views(s: Seq<DirChild>) -> Seq<ChildView> {
    s.map_values(|c: DirChild| c@)
}

/// Does `root` own `p` as a prefix on a path-component boundary?
pub open spec fn spec_root_prefixed(root: Seq<char>, p: Seq<char>) -> bool {
    &&& p.len() > root.len()
    &&& p.take(root.len() as int) == root
    &&& (p[root.len() as int] == '/' || (root.len() > 0 && root[root.len() - 1] == '/'))
}

/// The URL a filesystem path is served under: `/` for the root itself,
/// otherwise the normalized path relative to the root, with a trailing
/// slash appended for directories.
pub open spec fn spec_fs_path_to_url(root: Seq<char>, p: Seq<char>, is_dir: bool) -> Seq<char> {
    if p == root {
        seq!['/']
    } else {
        let rel = if spec_root_prefixed(root, p) {
            p.skip(root.len() as int)
        } else {
            p
        };
        let u = spec_normalize(rel);
        if is_dir {
            u + seq!['/']
        } else {
            u
        }
    }
}

/// Map a filesystem path under `root` to the URL it is served under (see
/// [`spec_fs_path_to_url`]).
pub fn fs_path_to_url(root: &str, fs_path: &str, is_dir: bool) -> (r: String)
    ensures
        r@ == spec_fs_path_to_url(root@, fs_path@, is_dir),
{
    proof {
        reveal_strlit("/");
    }
    if str_eq(fs_path, root) {
        return String::from_str("/");
    }
    let lr = root.unicode_len();
    let lp = fs_path.unicode_len();
    let prefixed = if lp > lr && str_has_prefix(fs_path, root) {
        if fs_path.get_char(lr) == '/' {
            true
        } else {
            lr > 0 && root.get_char(lr - 1) == '/'
        }
    } else {
        false
    };
    proof {
        assert(prefixed == spec_root_prefixed(root@, fs_path@));
    }
    let rel = if prefixed {
        fs_path.substring_char(lr, lp)
    } else {
        fs_path
    };
    proof {
        if prefixed {
            assert(rel@ =~= fs_path@.skip(root@.len() as int));
        }
    }
    let mut u = normalize_url(rel);
    if is_dir {
        u.append("/");
        proof {
            assert(u@ =~= spec_fs_path_to_url(root@, fs_path@, is_dir));
        }
    }
    u
}

/// The `<li>` hyperlink rendered for one child of a directory.
pub open spec fn spec_link_item(root: Seq<char>, dir: Seq<char>, c: ChildView) -> Seq<char> {
    "<li><a href=\""@ + spec_fs_path_to_url(root, spec_join(dir, c.name), c.is_dir) + "\">"@ + (
    if c.is_dir {
        FOLDER_SVG_ICON@
    } else {
        FILE_SVG_ICON@
    }) + " "@ + c.name + "</a></li>"@
}

/// The concatenation of the links of `cs`, in order.
pub open spec fn spec_links_of(root: Seq<char>, dir: Seq<char>, cs: Seq<ChildView>) -> Seq<char>
    decreases cs.len(),
{
    if cs.len() == 0 {
        Seq::empty()
    } else {
        spec_link_item(root, dir, cs[0]) + spec_links_of(root, dir, cs.drop_first())
    }
}

/// Children in listing order: directories first, then files, ties kept in
/// enumeration order.
pub open spec fn spec_dirs_first(cs: Seq<ChildView>) -> Seq<ChildView> {
    cs.filter(|c: ChildView| c.is_dir) + cs.filter(|c: ChildView| !c.is_dir)
}

/// The `<h1>` heading and `<ul>` list of a directory listing for the
/// directory served under `url`.
pub open spec fn spec_listing_content(
    root: Seq<char>,
    dir: Seq<char>,
    url: Seq<char>,
    cs: Seq<ChildView>,
) -> Seq<char> {
    "<h1>Directory Listing for "@ + url + "</h1>\n<ul>"@ + spec_links_of(
        root,
        dir,
        spec_dirs_first(cs),
    ) + "</ul>"@
}

/// The full directory-listing page for the directory served under `url`.
pub open spec fn spec_listing_page(
    root: Seq<char>,
    dir: Seq<char>,
    url: Seq<char>,
    cs: Seq<ChildView>,
) -> Seq<char> {
    spec_page("Directory Listing"@, spec_listing_content(root, dir, url, cs))
}

/// The listing order is a permutation of the scanned children — every
/// child appears exactly once — with every directory placed before every
/// file.
pub proof fn lemma_dirs_first_permutation(cs: Seq<ChildView>)
    ensures
        spec_dirs_first(cs).to_multiset() == cs.to_multiset(),
        spec_dirs_first(cs).len() == cs.len(),
        forall|i: int|
            0 <= i < cs.filter(|c: ChildView| c.is_dir).len() ==> spec_dirs_first(cs)[i].is_dir,
        forall|i: int|
            cs.filter(|c: ChildView| c.is_dir).len() <= i < spec_dirs_first(cs).len()
                ==> !spec_dirs_first(cs)[i].is_dir,
        forall|i: int| 0 <= i < spec_dirs_first(cs).len() ==> cs.contains(spec_dirs_first(cs)[i]),
        forall|i: int| 0 <= i < cs.len() ==> spec_dirs_first(cs).contains(cs[i]),
    decreases cs.len(),
{
    broadcast use vstd::seq_lib::group_filter_ensures;
    broadcast use vstd::seq_lib::group_to_multiset_ensures;
    broadcast use vstd::seq_lib::lemma_multiset_commutative;
    broadcast use vstd::multiset::group_multiset_axioms;

    let d = |c: ChildView| c.is_dir;
    let f = |c: ChildView| !c.is_dir;
    let sorted = spec_dirs_first(cs);
    if cs.len() == 0 {
        reveal_with_fuel(Seq::<_>::filter, 1);
        assert(sorted =~= cs);
        assert(sorted.to_multiset() =~= cs.to_multiset());
    } else {
        let dl = cs.drop_last();
        let last = cs.last();
        lemma_dirs_first_permutation(dl);
        reveal_with_fuel(Seq::<_>::filter, 1);
        assert(cs.filter(d) == if d(last) {
            dl.filter(d).push(last)
        } else {
            dl.filter(d)
        });
        assert(cs.filter(f) == if f(last) {
            dl.filter(f).push(last)
        } else {
            dl.filter(f)
        });
        assert(cs =~= dl.push(last));
        assert(cs.to_multiset() =~= dl.to_multiset().insert(last));
        if d(last) {
            assert(sorted.to_multiset() =~= dl.filter(d).push(last).to_multiset().add(
                dl.filter(f).to_multiset(),
            ));
            assert(sorted.to_multiset() =~= dl.filter(d).to_multiset().insert(last).add(
                dl.filter(f).to_multiset(),
            ));
            assert(sorted.to_multiset() =~= spec_dirs_first(dl).to_multiset().insert(last));
        } else {
            assert(sorted.to_multiset() =~= dl.filter(d).to_multiset().add(
                dl.filter(f).to_multiset().insert(last),
            ));
            assert(sorted.to_multiset() =~= spec_dirs_first(dl).to_multiset().insert(last));
        }
        assert(sorted.to_multiset() =~= cs.to_multiset());
    }
    assert(sorted.len() == sorted.to_multiset().len());
    assert(cs.len() == cs.to_multiset().len());
    assert(forall|i: int| 0 <= i < sorted.len() ==> cs.contains(sorted[i])) by {
        assert(forall|i: int|
            0 <= i < sorted.len() ==> sorted.to_multiset().count(#[trigger] sorted[i]) > 0);
    }
    assert(forall|i: int| 0 <= i < cs.len() ==> sorted.contains(cs[i])) by {
        assert(forall|i: int|
            0 <= i < cs.len() ==> cs.to_multiset().count(#[trigger] cs[i]) > 0);
    }
}

/// `spec_links_of` distributes over concatenation.
pub proof fn lemma_links_of_add(root: Seq<char>, dir: Seq<char>, a: Seq<ChildView>, b: Seq<
    ChildView,
>)
    ensures
        spec_links_of(root, dir, a + b) == spec_links_of(root, dir, a) + spec_links_of(
            root,
            dir,
            b,
        ),
    decreases a.len(),
{
    if a.len() == 0 {
        assert(a + b =~= b);
        assert(spec_links_of(root, dir, a) + spec_links_of(root, dir, b) =~= spec_links_of(
            root,
            dir,
            b,
        ));
    } else {
        assert((a + b).drop_first() =~= a.drop_first() + b);
        lemma_links_of_add(root, dir, a.drop_first(), b);
        assert(spec_link_item(root, dir, a[0]) + (spec_links_of(root, dir, a.drop_first())
            + spec_links_of(root, dir, b)) =~= spec_links_of(root, dir, a) + spec_links_of(
            root,
            dir,
            b,
        ));
    }
}

/// The URL of a clean-named child of the root itself: a leading slash, the
/// name, and a trailing slash for directories.
pub proof fn lemma_child_url_of_root(root: Seq<char>, c: ChildView)
    requires
        root.len() > 0,
        root[root.len() - 1] != '/' || root.len() == 1,
        c.name.len() > 0,
        forall|k: int| 0 <= k < c.name.len() ==> c.name[k] != '/',
        forall|k: int| 0 <= k < c.name.len() ==> c.name[k] != '?',
        c.name != "index.html"@,
    ensures
        spec_fs_path_to_url(root, spec_join(root, c.name), c.is_dir) == seq!['/'] + c.name + (
        if c.is_dir {
            seq!['/']
        } else {
            Seq::<char>::empty()
        }),
{
    let p = spec_join(root, c.name);
    let n = c.name;
    crate::lemma_normalize_clean_segment(n);
    assert(p != root) by {
        assert(p.len() > root.len());
    }
    if root.len() == 1 && root[0] == '/' {
        assert(p =~= root + n);
        assert(spec_root_prefixed(root, p)) by {
            assert(p.take(1) =~= root);
        }
        assert(p.skip(1) =~= n);
    } else {
        assert(p =~= root + seq!['/'] + n);
        assert(spec_root_prefixed(root, p)) by {
            assert(p.take(root.len() as int) =~= root);
            assert(p[root.len() as int] == '/');
        }
        assert(p.skip(root.len() as int) =~= seq!['/'] + n);
    }
    if !c.is_dir {
        assert(spec_normalize(p.skip(root.len() as int)) + Seq::<char>::empty() =~= seq!['/'] + n);
        assert(seq!['/'] + n + Seq::<char>::empty() =~= seq!['/'] + n);
    }
}

/// Two children with different names render different links, for names
/// that hold no space (the character the link format uses to separate the
/// icon from the name).
pub proof fn lemma_link_item_injective(root: Seq<char>, dir: Seq<char>, c1: ChildView, c2: ChildView)
    requires
        c1.name != c2.name,
        forall|k: int| 0 <= k < c1.name.len() ==> c1.name[k] != ' ',
        forall|k: int| 0 <= k < c2.name.len() ==> c2.name[k] != ' ',
    ensures
        spec_link_item(root, dir, c1) != spec_link_item(root, dir, c2),
{
    reveal_strlit(" ");
    reveal_strlit("</a></li>");
    if spec_link_item(root, dir, c1) == spec_link_item(root, dir, c2) {
        let l = spec_link_item(root, dir, c1);
        let b1 = "<li><a href=\""@ + spec_fs_path_to_url(root, spec_join(dir, c1.name), c1.is_dir)
            + "\">"@ + (if c1.is_dir {
            FOLDER_SVG_ICON@
        } else {
            FILE_SVG_ICON@
        });
        let b2 = "<li><a href=\""@ + spec_fs_path_to_url(root, spec_join(dir, c2.name), c2.is_dir)
            + "\">"@ + (if c2.is_dir {
            FOLDER_SVG_ICON@
        } else {
            FILE_SVG_ICON@
        });
        let n1 = c1.name;
        let n2 = c2.name;
        assert(l =~= b1 + " "@ + n1 + "</a></li>"@);
        assert(l =~= b2 + " "@ + n2 + "</a></li>"@);
        assert(l.len() == b1.len() + 1 + n1.len() + 9);
        assert(l.len() == b2.len() + 1 + n2.len() + 9);
        assert(forall|k: int| 0 <= k < n1.len() ==> l[b1.len() + 1 + k] == n1[k]);
        assert(forall|k: int| 0 <= k < n2.len() ==> l[b2.len() + 1 + k] == n2[k]);
        assert(l[b1.len() as int] == ' ');
        assert(l[b2.len() as int] == ' ');
        if n1.len() == n2.len() {
            assert(n1 =~= n2);
        } else if n1.len() < n2.len() {
            // The separator before the shorter name falls inside the longer
            // one, which holds no space.
            let p = b1.len() as int;
            assert(b2.len() + 1 <= p < b2.len() + 1 + n2.len());
            assert(n2[p - b2.len() - 1] == ' ');
        } else {
            let p = b2.len() as int;
            assert(b1.len() + 1 <= p < b1.len() + 1 + n1.len());
            assert(n1[p - b1.len() - 1] == ' ');
        }
    }
}

/// A listing rendered after a child has vanished holds no link equal to
/// the vanished child's, for names that hold no space.
pub proof fn lemma_listing_omits_vanished_link(
    root: Seq<char>,
    dir: Seq<char>,
    cs: Seq<ChildView>,
    gone: ChildView,
)
    requires
        forall|j: int| 0 <= j < cs.len() ==> cs[j].name != gone.name,
        forall|k: int| 0 <= k < gone.name.len() ==> gone.name[k] != ' ',
        forall|j: int, k: int|
            0 <= j < cs.len() && 0 <= k < cs[j].name.len() ==> cs[j].name[k] != ' ',
    ensures
        forall|i: int|
            0 <= i < spec_dirs_first(cs).len() ==> spec_link_item(
                root,
                dir,
                #[trigger] spec_dirs_first(cs)[i],
            ) != spec_link_item(root, dir, gone),
{
    lemma_dirs_first_permutation(cs);
    let sorted = spec_dirs_first(cs);
    assert forall|i: int| 0 <= i < sorted.len() implies spec_link_item(
        root,
        dir,
        #[trigger] sorted[i],
    ) != spec_link_item(root, dir, gone) by {
        let c = sorted[i];
        assert(cs.contains(c));
        let w = choose|w: int| 0 <= w < cs.len() && cs[w] == c;
        lemma_link_item_injective(root, dir, c, gone);
    }
}

/// Render the hyperlink for one child.
fn link_item(root: &str, dir: &str, child: &DirChild) -> (r: String)
    ensures
        r@ == spec_link_item(root@, dir@, child@),
{
    let fs_path = join_path(dir, child.name.as_str());
    let url = fs_path_to_url(root, fs_path.as_str(), child.is_dir);
    let mut out = String::from_str("<li><a href=\"");
    out.append(url.as_str());
    out.append("\">");
    if child.is_dir {
        out.append(FOLDER_SVG_ICON);
    } else {
        out.append(FILE_SVG_ICON);
    }
    out.append(" ");
    out.append(child.name.as_str());
    out.append("</a></li>");
    proof {
        assert(out@ =~= spec_link_item(root@, dir@, child@));
    }
    out
}

/// Render the links of all children, directories first.
fn create_entry_hyperlinks(root: &str, dir: &str, children: &Vec<DirChild>) -> (r: String)
    ensures
        r@ == spec_links_of(root@, dir@, spec_dirs_first(child_views(children@))),
{
    broadcast use vstd::seq_lib::group_filter_ensures;

    let ghost views = child_views(children@);
    let ghost is_dir_pred = |c: ChildView| c.is_dir;
    let ghost is_file_pred = |c: ChildView| !c.is_dir;
    let mut out = String::new();
    let mut i: usize = 0;
    proof {
        assert(child_views(children@.take(0)) =~= Seq::<ChildView>::empty());
        reveal_with_fuel(Seq::<_>::filter, 2);
    }
    while i < children.len()
        invariant
            i <= children.len(),
            views == child_views(children@),
            out@ == spec_links_of(root@, dir@, child_views(children@.take(i as int)).filter(
                is_dir_pred,
            )),
            is_dir_pred == (|c: ChildView| c.is_dir),
        decreases children.len() - i,
    {
        let ghost prefix = child_views(children@.take(i as int));
        let ghost prefix1 = child_views(children@.take(i + 1));
        let ghost c = children@[i as int]@;
        proof {
            reveal_with_fuel(Seq::<_>::filter, 2);
            assert(prefix1 =~= prefix + seq![c]);
            Seq::<ChildView>::filter_distributes_over_add(prefix, seq![c], is_dir_pred);
            assert(seq![c].drop_last() =~= Seq::<ChildView>::empty());
        }
        if children[i].is_dir {
            let item = link_item(root, dir, &children[i]);
            out.append(item.as_str());
            proof {
                assert(seq![c].filter(is_dir_pred) =~= seq![c]);
                assert(prefix1.filter(is_dir_pred) =~= prefix.filter(is_dir_pred) + seq![c]);
                lemma_links_of_add(root@, dir@, prefix.filter(is_dir_pred), seq![c]);
                assert(spec_links_of(root@, dir@, seq![c]) =~= spec_link_item(root@, dir@, c)) by {
                    assert(seq![c].drop_first() =~= Seq::<ChildView>::empty());
                    assert(spec_link_item(root@, dir@, c) + spec_links_of(
                        root@,
                        dir@,
                        Seq::<ChildView>::empty(),
                    ) =~= spec_link_item(root@, dir@, c));
                }
                assert(out@ =~= spec_links_of(root@, dir@, prefix1.filter(is_dir_pred)));
            }
        } else {
            proof {
                assert(seq![c].filter(is_dir_pred) =~= Seq::<ChildView>::empty());
                assert(prefix1.filter(is_dir_pred) =~= prefix.filter(is_dir_pred));
            }
        }
        i += 1;
    }
    proof {
        assert(children@.take(children@.len() as int) =~= children@);
    }
    let mut i: usize = 0;
    proof {
        assert(child_views(children@.take(0)) =~= Seq::<ChildView>::empty());
        reveal_with_fuel(Seq::<_>::filter, 2);
        assert(out@ + spec_links_of(root@, dir@, child_views(children@.take(0)).filter(
            is_file_pred,
        )) =~= out@);
    }
    let ghost dirs_links = out@;
    while i < children.len()
        invariant
            i <= children.len(),
            views == child_views(children@),
            dirs_links == spec_links_of(root@, dir@, views.filter(is_dir_pred)),
            out@ == dirs_links + spec_links_of(root@, dir@, child_views(children@.take(
                i as int,
            )).filter(is_file_pred)),
            is_dir_pred == (|c: ChildView| c.is_dir),
            is_file_pred == (|c: ChildView| !c.is_dir),
        decreases children.len() - i,
    {
        let ghost prefix = child_views(children@.take(i as int));
        let ghost prefix1 = child_views(children@.take(i + 1));
        let ghost c = children@[i as int]@;
        proof {
            reveal_with_fuel(Seq::<_>::filter, 2);
            assert(prefix1 =~= prefix + seq![c]);
            Seq::<ChildView>::filter_distributes_over_add(prefix, seq![c], is_file_pred);
            assert(seq![c].drop_last() =~= Seq::<ChildView>::empty());
        }
        if !children[i].is_dir {
            let item = link_item(root, dir, &children[i]);
            out.append(item.as_str());
            proof {
                assert(seq![c].filter(is_file_pred) =~= seq![c]);
                assert(prefix1.filter(is_file_pred) =~= prefix.filter(is_file_pred) + seq![c]);
                lemma_links_of_add(root@, dir@, prefix.filter(is_file_pred), seq![c]);
                assert(spec_links_of(root@, dir@, seq![c]) =~= spec_link_item(root@, dir@, c)) by {
                    assert(seq![c].drop_first() =~= Seq::<ChildView>::empty());
                    assert(spec_link_item(root@, dir@, c) + spec_links_of(
                        root@,
                        dir@,
                        Seq::<ChildView>::empty(),
                    ) =~= spec_link_item(root@, dir@, c));
                }
                assert(out@ =~= dirs_links + spec_links_of(root@, dir@, prefix1.filter(
                    is_file_pred,
                )));
            }
        } else {
            proof {
                assert(seq![c].filter(is_file_pred) =~= Seq::<ChildView>::empty());
                assert(prefix1.filter(is_file_pred) =~= prefix.filter(is_file_pred));
            }
        }
        i += 1;
    }
    proof {
        assert(children@.take(children@.len() as int) =~= children@);
        lemma_links_of_add(root@, dir@, views.filter(is_dir_pred), views.filter(is_file_pred));
        assert(out@ =~= spec_links_of(root@, dir@, spec_dirs_first(views)));
    }
    out
}

/// The directory-listing page for the directory `dir` served under `url`:
/// a heading naming `url` and one hyperlink per child, directories first.
pub fn build_directory_listing_page(url: &str, root: &str, dir: &str, children: &Vec<DirChild>) -> (r:
    String)
    ensures
        r@ == spec_listing_page(root@, dir@, url@, child_views(children@)),
{
    let links = create_entry_hyperlinks(root, dir, children);
    let mut content = String::from_str("<h1>Directory Listing for ");
    content.append(url);
    content.append("</h1>\n<ul>");
    content.append(links.as_str());
    content.append("</ul>");
    proof {
        assert(content@ =~= spec_listing_content(root@, dir@, url@, child_views(children@)));
    }
    render_page("Directory Listing", content.as_str())
}

} // verus!
