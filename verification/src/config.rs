//! The configuration surface: one resolution table over a root directory
//! plus the static MIME-type lookup, created together at startup.
use vstd::prelude::*;

verus! {

use crate::common::spec_not_found_content;
use crate::common::spec_page;
use crate::mime_types::MimeTypes;
use crate::urls_table::DEFAULT_CACHE_EXPIRATION_TIME;
use crate::urls_table::Seconds;
use crate::urls_table::UrlEntryView;
use crate::urls_table::UrlsTable;
use crate::urls_table::spec_canon_root;

/// Everything a server run needs: the resolution table rooted at the
/// served directory and the MIME-type lookup.
pub struct Config {
    pub urls_table: UrlsTable,
    pub mime_types: MimeTypes,
}

impl Config {
    /// A fresh configuration serving `root_path`, caching with the given
    /// time-to-live or the default one.
    pub fn new(root_path: String, cache_expiration_time: Option<Seconds>) -> (r: Config)
        ensures
            r.urls_table.wf(),
            r.urls_table.root() == spec_canon_root(root_path@),
            r.urls_table.urls() == Map::<Seq<char>, UrlEntryView>::empty(),
            r.urls_table.ttl() == match cache_expiration_time {
                Option::Some(t) => t,
                Option::None => DEFAULT_CACHE_EXPIRATION_TIME,
            },
    {
        Config {
            urls_table: UrlsTable::new(root_path, cache_expiration_time),
            mime_types: MimeTypes::new(),
        }
    }
}

/// The fixed page served when a URL resolves to nothing on disk.
pub fn generate_not_found_page() -> (r: String)
    ensures
        r@ == spec_page("Error Response"@, spec_not_found_content()),
{
    crate::common::build_not_found_page()
}

} // verus!
