//! Settings for single-page applications: routes that name no file fall
//! back to the index document.

use crate::file_serving::path_utils::{path_extension, FsPath};
use crate::text::{lowercase, lowercased, same_text};
use vstd::prelude::*;
use vstd::string::*;

verus! {

/// Which document stands for unknown routes, and which extensions mark a
/// request as one for a file rather than a route.
#[derive(Debug, Clone)]
pub struct SpaConfig {
    /// The index document, relative to the served directory.
    pub index_path: String,
    /// Extensions of static files, in lower case.
    pub static_extensions: Vec<String>,
}

/// The extensions that count as static files unless configured otherwise.
pub open spec fn default_extensions() -> Seq<Seq<char>> {
    seq![
        "css"@,
        "js"@,
        "jpg"@,
        "jpeg"@,
        "png"@,
        "gif"@,
        "svg"@,
        "ico"@,
        "woff"@,
        "woff2"@,
        "ttf"@,
        "eot"@,
        "pdf"@,
        "json"@,
        "webp"@,
        "map"@,
        "txt"@,
    ]
}

impl SpaConfig {
    /// Is `ext`, put in lower case, one of the static extensions?
    pub open spec fn recognizes(&self, ext: Seq<char>) -> bool {
        exists|i: int|
            0 <= i < self.static_extensions@.len() && (#[trigger] self.static_extensions@[i])@
                == lowercased(ext)
    }

    /// Does `path` name a static file: has its last name an extension that
    /// is recognized?
    pub open spec fn is_static(&self, path: Seq<Seq<char>>) -> bool {
        match path_extension(path) {
            Some(ext) => self.recognizes(ext),
            None => false,
        }
    }

    /// The usual settings: `index.html`, and the common extensions of
    /// style sheets, scripts, images, fonts and documents.
    pub fn new() -> (r: SpaConfig)
        ensures
            r.index_path@ == "index.html"@,
            r.static_extensions.deep_view() == default_extensions(),
    {
        let mut exts: Vec<String> = Vec::new();
        exts.push("css".to_owned());
        exts.push("js".to_owned());
        exts.push("jpg".to_owned());
        exts.push("jpeg".to_owned());
        exts.push("png".to_owned());
        exts.push("gif".to_owned());
        exts.push("svg".to_owned());
        exts.push("ico".to_owned());
        exts.push("woff".to_owned());
        exts.push("woff2".to_owned());
        exts.push("ttf".to_owned());
        exts.push("eot".to_owned());
        exts.push("pdf".to_owned());
        exts.push("json".to_owned());
        exts.push("webp".to_owned());
        exts.push("map".to_owned());
        exts.push("txt".to_owned());
        assert(exts.deep_view() =~= default_extensions());
        SpaConfig { index_path: "index.html".to_owned(), static_extensions: exts }
    }

    /// Whether `path` names a static file, by the extension of its last
    /// name, letter case not counting.
    pub fn is_static_file(&self, path: &FsPath) -> (r: bool)
        ensures
            r == self.is_static(path@),
    {
        let ext = match path.extension() {
            Some(ext) => ext,
            None => {
                return false;
            },
        };
        let lowered = lowercase(ext.as_str());
        let mut i: usize = 0;
        while i < self.static_extensions.len()
            invariant
                i <= self.static_extensions.len(),
                lowered@ == lowercased(ext@),
                path_extension(path@) == Some(ext@),
                forall|k: int|
                    0 <= k < i ==> (#[trigger] self.static_extensions@[k])@ != lowercased(ext@),
            decreases self.static_extensions.len() - i,
        {
            if same_text(self.static_extensions[i].as_str(), lowered.as_str()) {
                assert(self.static_extensions@[i as int]@ == lowercased(ext@));
                return true;
            }
            i += 1;
        }
        false
    }
}

impl Default for SpaConfig {
    fn default() -> (r: SpaConfig)
        ensures
            r.index_path@ == "index.html"@,
            r.static_extensions.deep_view() == default_extensions(),
    {
        SpaConfig::new()
    }
}

} // verus!
