use vstd::prelude::*;

use crate::addon::AddonFile;
use crate::channel::{lemma_select_in_bounds, select_spec, ReleaseTypeMode};
use crate::text::{chars_of, contains_chars, lower_of, lowercased, occurs_in, trim_of, trimmed};
use crate::version::{version_error_explained, version_refusable, GameVersion, VersionError};

verus! {

/// Repository settings.
#[derive(Clone, Debug)]
pub struct Conf {
    pub game_version: GameVersion,
    pub url_txt: bool,
    pub addon_mtime: bool,
    pub soft_retries: u32,
    pub api_headers: Vec<(String, String)>,
    pub api_domain: String,
    pub override_api_key: Option<String>,
    pub symlink_cache_path: Option<String>,
    pub positive_loader_filter: Vec<String>,
    pub negative_loader_filter: Vec<String>,
}

pub open spec fn opt_view(b: Option<&str>) -> Option<Seq<char>> {
    match b {
        Some(x) => Some(x@),
        None => None,
    }
}

/// A text as the filters compare it: trimmed, then lowercased.
pub open spec fn folded(s: Seq<char>) -> Seq<char> {
    lower_of(trim_of(s))
}

/// Whether one of the file's game versions contains `entry`.
pub open spec fn in_list(file: AddonFile, entry: Seq<char>) -> bool {
    exists|i: int| 0 <= i < file.game_version@.len()
        && occurs_in(folded((#[trigger] file.game_version@[i]).str@), folded(entry))
}

/// Whether the file's name contains `entry`.
pub open spec fn in_filename(file: AddonFile, entry: Seq<char>) -> bool {
    occurs_in(folded(file.file_name@), folded(entry))
}

pub open spec fn any_in_list(file: AddonFile, l: Seq<String>) -> bool {
    exists|i: int| 0 <= i < l.len() && in_list(file, (#[trigger] l[i])@)
}

pub open spec fn any_in_filename(file: AddonFile, l: Seq<String>) -> bool {
    exists|i: int| 0 <= i < l.len() && in_filename(file, (#[trigger] l[i])@)
}

impl Conf {
    pub open spec fn wf(&self) -> bool {
        self.game_version.wf()
    }

    /// Whether the file supports the configured game version.
    pub open spec fn game_accepts(&self, file: AddonFile) -> bool {
        exists|i: int| 0 <= i < file.game_version@.len()
            && self.game_version.accepts_text((#[trigger] file.game_version@[i]).str@)
    }

    /// Whether the file passes the compatibility filter: it must support the game version; then
    /// a positive loader filter found among its game versions lets it pass, the blacklist or a
    /// negative filter found there refuses it, and, where names are consulted too, the same
    /// three tests are made on the file name.
    pub open spec fn passes(&self, file: AddonFile, blacklist: Option<Seq<char>>, in_name: bool) -> bool {
        let pos = self.positive_loader_filter@;
        let neg = self.negative_loader_filter@;
        if !self.game_accepts(file) {
            false
        } else if any_in_list(file, pos) {
            true
        } else if blacklist matches Some(b) && in_list(file, b) {
            false
        } else if any_in_list(file, neg) {
            false
        } else if in_name && any_in_filename(file, pos) {
            true
        } else if in_name && (blacklist matches Some(b) && in_filename(file, b)) {
            false
        } else if in_name && any_in_filename(file, neg) {
            false
        } else {
            true
        }
    }

    pub fn filter_addon_file(&self, file: &AddonFile, legacy_blacklist: Option<&str>, positive_negative_in_filename: bool) -> (r: bool)
        requires
            self.wf(),
        ensures
            r == self.passes(*file, opt_view(legacy_blacklist), positive_negative_in_filename),
    {
        if !self.game_version.matches(file.game_version.as_slice()) {
            return false;
        }
        if any_entry_in_list(file, &self.positive_loader_filter) {
            return true;
        }
        match legacy_blacklist {
            Some(b) => {
                if entry_in_list(file, b) {
                    return false;
                }
            },
            None => {},
        }
        if any_entry_in_list(file, &self.negative_loader_filter) {
            return false;
        }
        if positive_negative_in_filename {
            if any_entry_in_filename(file, &self.positive_loader_filter) {
                return true;
            }
            match legacy_blacklist {
                Some(b) => {
                    if entry_in_filename(file, b) {
                        return false;
                    }
                },
                None => {},
            }
            if any_entry_in_filename(file, &self.negative_loader_filter) {
                return false;
            }
        }
        true
    }

    /// Which of `v` pass the filter.
    pub open spec fn passing(&self, v: Seq<AddonFile>, blacklist: Option<Seq<char>>, in_name: bool) -> Seq<bool> {
        Seq::new(v.len(), |i: int| self.passes(v[i], blacklist, in_name))
    }

    pub fn filter_all(&self, v: &[AddonFile], blacklist: Option<&str>, in_name: bool) -> (r: Vec<bool>)
        requires
            self.wf(),
        ensures
            r@ == self.passing(v@, opt_view(blacklist), in_name),
    {
        let mut out: Vec<bool> = Vec::new();
        let mut i: usize = 0;
        while i < v.len()
            invariant
                self.wf(),
                i <= v@.len(),
                out@ == self.passing(v@, opt_view(blacklist), in_name).subrange(0, i as int),
            decreases v@.len() - i,
        {
            let b = self.filter_addon_file(&v[i], blacklist, in_name);
            out.push(b);
            i = i + 1;
            assert(out@ =~= self.passing(v@, opt_view(blacklist), in_name).subrange(0, i as int));
        }
        assert(out@ =~= self.passing(v@, opt_view(blacklist), in_name));
        out
    }
}

impl ReleaseTypeMode {
    /// The file that the channel selects among `v` (ascending by id) under the configured filter.
    pub fn pick_version<'a>(
        &self,
        v: &'a [AddonFile],
        conf: &Conf,
        blacklist: Option<&str>,
        positive_negative_in_filename: bool,
    ) -> (r: Option<&'a AddonFile>)
        requires
            conf.wf(),
        ensures
            match r {
                Some(f) => exists|i: int| select_spec(*self, v@, conf.passing(v@, opt_view(blacklist), positive_negative_in_filename)) == Some(i)
                    && 0 <= i < v@.len() && v@[i] == *f,
                None => select_spec(*self, v@, conf.passing(v@, opt_view(blacklist), positive_negative_in_filename)) is None,
            },
    {
        let ok = conf.filter_all(v, blacklist, positive_negative_in_filename);
        proof {
            lemma_select_in_bounds(*self, v@, ok@);
        }
        match self.select(v, ok.as_slice()) {
            Some(i) => Some(&v[i]),
            None => None,
        }
    }
}

fn fold_text(s: &str) -> (r: Vec<char>)
    ensures
        r@ == folded(s@),
{
    let t = trimmed(s);
    let l = lowercased(t.as_str());
    chars_of(l.as_str())
}

fn entry_in_list(file: &AddonFile, entry: &str) -> (r: bool)
    ensures
        r == in_list(*file, entry@),
{
    let e = fold_text(entry);
    let mut i: usize = 0;
    while i < file.game_version.len()
        invariant
            i <= file.game_version@.len(),
            e@ == folded(entry@),
            forall|k: int| 0 <= k < i ==> !occurs_in(folded((#[trigger] file.game_version@[k]).str@), folded(entry@)),
        decreases file.game_version@.len() - i,
    {
        let g = fold_text(file.game_version[i].str.as_str());
        if contains_chars(g.as_slice(), e.as_slice()) {
            return true;
        }
        i = i + 1;
    }
    false
}

fn entry_in_filename(file: &AddonFile, entry: &str) -> (r: bool)
    ensures
        r == in_filename(*file, entry@),
{
    let e = fold_text(entry);
    let f = fold_text(file.file_name.as_str());
    contains_chars(f.as_slice(), e.as_slice())
}

fn any_entry_in_list(file: &AddonFile, l: &Vec<String>) -> (r: bool)
    ensures
        r == any_in_list(*file, l@),
{
    let mut i: usize = 0;
    while i < l.len()
        invariant
            i <= l@.len(),
            forall|k: int| 0 <= k < i ==> !in_list(*file, (#[trigger] l@[k])@),
        decreases l@.len() - i,
    {
        if entry_in_list(file, l[i].as_str()) {
            return true;
        }
        i = i + 1;
    }
    false
}

fn any_entry_in_filename(file: &AddonFile, l: &Vec<String>) -> (r: bool)
    ensures
        r == any_in_filename(*file, l@),
{
    let mut i: usize = 0;
    while i < l.len()
        invariant
            i <= l@.len(),
            forall|k: int| 0 <= k < i ==> !in_filename(*file, (#[trigger] l@[k])@),
        decreases l@.len() - i,
    {
        if entry_in_filename(file, l[i].as_str()) {
            return true;
        }
        i = i + 1;
    }
    false
}

pub fn default_api_headers() -> (r: Vec<(String, String)>)
    ensures
        r@.len() == 0,
{
    Vec::new()
}

pub fn default_api_domain() -> (r: String)
    ensures
        r@ == "https://api.curseforge.com/v1"@,
{
    String::from_str("https://api.curseforge.com/v1")
}

pub fn default_url_txt() -> (r: bool)
    ensures
        r,
{
    true
}

pub fn default_addon_mtime() -> (r: bool)
    ensures
        r,
{
    true
}

pub fn default_soft_retries() -> (r: u32)
    ensures
        r == 4,
{
    4
}

/// Why a repository cannot be set up.
#[derive(Clone, Copy, Debug, PartialEq, Eq, Structural)]
pub enum InitError {
    /// No game version was given.
    NoGameVersion,
    /// The game version does not parse.
    BadGameVersion(VersionError),
}

/// The settings of a new repository for the given game version, all else at its default.
pub fn init(game_version: Option<String>) -> (r: Result<Conf, InitError>)
    ensures
        game_version is None ==> r == Err::<Conf, InitError>(InitError::NoGameVersion),
        game_version is Some && !version_refusable(vstd::utf8::encode_utf8(game_version->0@)) ==> r is Ok,
        r matches Err(InitError::BadGameVersion(e)) ==> (game_version is Some
            && version_error_explained(vstd::utf8::encode_utf8(game_version->0@), e)),
        r matches Ok(c) ==> (c.wf() && game_version is Some && c.game_version.str == game_version->0
            && c.url_txt && c.addon_mtime && c.soft_retries == 4 && c.api_headers@.len() == 0
            && c.override_api_key is None && c.symlink_cache_path is None
            && c.positive_loader_filter@.len() == 0 && c.negative_loader_filter@.len() == 0),
{
    let g = match game_version {
        Some(g) => g,
        None => { return Err(InitError::NoGameVersion); },
    };
    let game_version = match GameVersion::from_string(g) {
        Ok(v) => v,
        Err(e) => { return Err(InitError::BadGameVersion(e)); },
    };
    Ok(Conf {
        game_version,
        url_txt: default_url_txt(),
        addon_mtime: default_addon_mtime(),
        soft_retries: default_soft_retries(),
        api_headers: default_api_headers(),
        api_domain: default_api_domain(),
        override_api_key: None,
        symlink_cache_path: None,
        positive_loader_filter: Vec::new(),
        negative_loader_filter: Vec::new(),
    })
}

} // verus!
