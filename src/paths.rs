use vstd::prelude::*;

use crate::addon::{AddonFile, AddonID};
use crate::conf::Conf;
use crate::finalize::{part_commit, part_rollback, Finalize, FsAction};
use crate::validate::{url_txt_content, url_txt_text};
use crate::text::{chars_of, string_of};

verus! {

/// Where a file of an addon lives, is staged and has its provenance sidecar.
#[derive(Clone, Debug)]
pub struct FilePaths {
    pub path: String,
    pub part_path: String,
    pub cache_path: Option<String>,
    pub url_txt_path: String,
    pub disabled: bool,
}

/// `FilePaths` without the shared cache.
#[derive(Clone, Debug)]
pub struct FilePathsPart {
    pub path: String,
    pub part_path: String,
    pub url_txt_path: String,
    pub disabled: bool,
}

/// `s` with `add` appended.
pub fn attached_to_path(s: &str, add: &str) -> (r: String)
    ensures
        r@ == s@ + add@,
{
    let mut a = chars_of(s);
    let mut b = chars_of(add);
    a.append(&mut b);
    string_of(a.as_slice())
}

pub open spec fn digit_char(d: nat) -> char {
    (48 + d) as char
}

/// The decimal digits of `n`.
pub open spec fn decimal_of(n: nat) -> Seq<char>
    decreases n,
{
    if n < 10 {
        seq![digit_char(n)]
    } else {
        decimal_of(n / 10) + seq![digit_char(n % 10)]
    }
}

fn decimal_chars(n: u64) -> (r: Vec<char>)
    ensures
        r@ == decimal_of(n as nat),
    decreases n,
{
    let d = (n % 10) as u8;
    let c = (48u8 + d) as char;
    if n < 10 {
        let mut v: Vec<char> = Vec::new();
        v.push(c);
        assert(v@ =~= decimal_of(n as nat));
        v
    } else {
        let mut v = decimal_chars(n / 10);
        v.push(c);
        assert(v@ =~= decimal_of(n as nat));
        v
    }
}

/// `name` inside the directory `dir`.
pub open spec fn joined(dir: Seq<char>, name: Seq<char>) -> Seq<char> {
    if dir.len() == 0 {
        name
    } else if dir.last() == '/' {
        dir + name
    } else {
        dir + seq!['/'] + name
    }
}

/// The name of a file in the shared cache: `cf_<addon id>_<file id>_<file name>`.
pub open spec fn cache_name(addon_id: AddonID, file: AddonFile) -> Seq<char> {
    seq!['c', 'f', '_'] + decimal_of(addon_id.0 as nat) + seq!['_'] + decimal_of(file.id.0 as nat) + seq!['_']
        + file.file_name@
}

fn cache_path_of(dir: &String, addon_id: AddonID, file: &AddonFile) -> (r: String)
    ensures
        r@ == joined(dir@, cache_name(addon_id, *file)),
{
    let mut name: Vec<char> = Vec::new();
    name.push('c');
    name.push('f');
    name.push('_');
    let mut a = decimal_chars(addon_id.0);
    name.append(&mut a);
    name.push('_');
    let mut f = decimal_chars(file.id.0);
    name.append(&mut f);
    name.push('_');
    let mut n = chars_of(file.file_name.as_str());
    name.append(&mut n);
    assert(name@ =~= cache_name(addon_id, *file));
    let mut out = chars_of(dir.as_str());
    let ghost d = out@;
    if out.len() > 0 && out[out.len() - 1] != '/' {
        out.push('/');
    }
    out.append(&mut name);
    assert(out@ =~= joined(d, cache_name(addon_id, *file)));
    string_of(out.as_slice())
}

/// `r` is where a new install of `f` goes.
pub open spec fn new_paths(f: AddonFile, addon_id: AddonID, disabled: bool, conf: Conf, r: FilePaths) -> bool {
    &&& r.disabled == disabled
    &&& !disabled ==> r.path@ == f.file_name@ && r.part_path@ == f.file_name@ + ".part"@
        && r.url_txt_path@ == f.file_name@ + ".url.txt"@
    &&& disabled ==> r.path@ == f.file_name@ + ".disabled"@ && r.part_path@ == f.file_name@ + ".disabled.part"@
        && r.url_txt_path@ == f.file_name@ + ".disabled.url.txt"@
    &&& match conf.symlink_cache_path {
        Some(d) => r.cache_path matches Some(c) && c@ == joined(d@, cache_name(addon_id, f)),
        None => r.cache_path is None,
    }
}

/// `r` is where the current install of `f` is, given what the caller found on disk.
pub open spec fn current_paths(f: AddonFile, addon_id: AddonID, path_exists: bool, disabled_is_file: bool, conf: Conf,
    r: FilePaths) -> bool {
    &&& r.disabled == (!path_exists && disabled_is_file)
    &&& r.part_path@ == f.file_name@ + ".part"@
    &&& !r.disabled ==> r.path@ == f.file_name@ && r.url_txt_path@ == f.file_name@ + ".url.txt"@
    &&& r.disabled ==> r.path@ == f.file_name@ + ".disabled"@ && r.url_txt_path@ == f.file_name@ + ".disabled.url.txt"@
    &&& match conf.symlink_cache_path {
        Some(d) => r.cache_path matches Some(c) && c@ == joined(d@, cache_name(addon_id, f)),
        None => r.cache_path is None,
    }
}

/// Removing a superseded install, sparing the paths the new install uses.
pub open spec fn removal(old: FilePaths, new: FilePaths) -> Seq<FsAction> {
    (if new.url_txt_path@ != old.url_txt_path@ { seq![FsAction::RemoveIfExists(old.url_txt_path)] } else { seq![] })
        + (if new.path@ != old.path@ { seq![FsAction::RemoveIfExists(old.path)] } else { seq![] })
}

impl AddonFile {
    /// The paths of a new install; `disabled` keeps it under its `.disabled` name.
    pub fn file_paths_part_new(&self, disabled: bool) -> (r: FilePathsPart)
        ensures
            r.disabled == disabled,
            !disabled ==> r.path@ == self.file_name@ && r.part_path@ == self.file_name@ + ".part"@
                && r.url_txt_path@ == self.file_name@ + ".url.txt"@,
            disabled ==> r.path@ == self.file_name@ + ".disabled"@ && r.part_path@ == self.file_name@ + ".disabled.part"@
                && r.url_txt_path@ == self.file_name@ + ".disabled.url.txt"@,
    {
        if disabled {
            FilePathsPart {
                path: attached_to_path(&self.file_name, ".disabled"),
                part_path: attached_to_path(&self.file_name, ".disabled.part"),
                url_txt_path: attached_to_path(&self.file_name, ".disabled.url.txt"),
                disabled,
            }
        } else {
            FilePathsPart {
                path: self.file_name.clone(),
                part_path: attached_to_path(&self.file_name, ".part"),
                url_txt_path: attached_to_path(&self.file_name, ".url.txt"),
                disabled,
            }
        }
    }

    /// The paths of the current install: it counts as disabled where the plain file is missing
    /// and the `.disabled` one is a file or link (as the caller found on disk).
    pub fn file_paths_part_current(&self, path_exists: bool, disabled_is_file: bool) -> (r: FilePathsPart)
        ensures
            r.disabled == (!path_exists && disabled_is_file),
            r.part_path@ == self.file_name@ + ".part"@,
            !r.disabled ==> r.path@ == self.file_name@ && r.url_txt_path@ == self.file_name@ + ".url.txt"@,
            r.disabled ==> r.path@ == self.file_name@ + ".disabled"@ && r.url_txt_path@ == self.file_name@ + ".disabled.url.txt"@,
    {
        let disabled = !path_exists && disabled_is_file;
        let part_path = attached_to_path(&self.file_name, ".part");
        if disabled {
            FilePathsPart {
                path: attached_to_path(&self.file_name, ".disabled"),
                part_path,
                url_txt_path: attached_to_path(&self.file_name, ".disabled.url.txt"),
                disabled,
            }
        } else {
            FilePathsPart {
                path: self.file_name.clone(),
                part_path,
                url_txt_path: attached_to_path(&self.file_name, ".url.txt"),
                disabled,
            }
        }
    }

    /// The rename that brings the sidecar in line with whether the install is disabled, as a
    /// (from, to) pair: where the install is disabled, a plain sidecar that is a file or link
    /// moves to the disabled name if that is free; otherwise a disabled sidecar moves to the plain
    /// name if that is free. Nothing unless fix-ups are allowed.
    pub fn url_txt_fixup(
        &self,
        disabled: bool,
        url_txt_exists: bool,
        url_txt_is_file: bool,
        disabled_url_txt_exists: bool,
        disabled_url_txt_is_file: bool,
        allow_fixups: bool,
    ) -> (r: Option<(String, String)>)
        ensures
            (allow_fixups && disabled && !disabled_url_txt_exists && url_txt_is_file) ==> (r matches Some(x)
                && x.0@ == self.file_name@ + ".url.txt"@ && x.1@ == self.file_name@ + ".disabled.url.txt"@),
            (allow_fixups && !disabled && !url_txt_exists && disabled_url_txt_is_file) ==> (r matches Some(x)
                && x.0@ == self.file_name@ + ".disabled.url.txt"@ && x.1@ == self.file_name@ + ".url.txt"@),
            !((allow_fixups && disabled && !disabled_url_txt_exists && url_txt_is_file)
                || (allow_fixups && !disabled && !url_txt_exists && disabled_url_txt_is_file)) ==> r is None,
    {
        if !allow_fixups {
            return None;
        }
        if disabled {
            if !disabled_url_txt_exists && url_txt_is_file {
                return Some((attached_to_path(&self.file_name, ".url.txt"), attached_to_path(&self.file_name, ".disabled.url.txt")));
            }
        } else {
            if !url_txt_exists && disabled_url_txt_is_file {
                return Some((attached_to_path(&self.file_name, ".disabled.url.txt"), attached_to_path(&self.file_name, ".url.txt")));
            }
        }
        None
    }

    fn with_cache(&self, p: FilePathsPart, addon_id: AddonID, conf: &Conf) -> (r: FilePaths)
        ensures
            r.path == p.path && r.part_path == p.part_path && r.url_txt_path == p.url_txt_path && r.disabled == p.disabled,
            match conf.symlink_cache_path {
                Some(d) => r.cache_path matches Some(c) && c@ == joined(d@, cache_name(addon_id, *self)),
                None => r.cache_path is None,
            },
    {
        let cache_path = match &conf.symlink_cache_path {
            Some(d) => Some(cache_path_of(d, addon_id, self)),
            None => None,
        };
        FilePaths { path: p.path, part_path: p.part_path, cache_path, url_txt_path: p.url_txt_path, disabled: p.disabled }
    }

    /// `file_paths_part_new` with the shared cache location, if one is configured.
    pub fn file_paths_new(&self, addon_id: AddonID, disabled: bool, conf: &Conf) -> (r: FilePaths)
        ensures
            new_paths(*self, addon_id, disabled, *conf, r),
            r.disabled == disabled,
            !disabled ==> r.path@ == self.file_name@ && r.part_path@ == self.file_name@ + ".part"@
                && r.url_txt_path@ == self.file_name@ + ".url.txt"@,
            disabled ==> r.path@ == self.file_name@ + ".disabled"@ && r.part_path@ == self.file_name@ + ".disabled.part"@
                && r.url_txt_path@ == self.file_name@ + ".disabled.url.txt"@,
            match conf.symlink_cache_path {
                Some(d) => r.cache_path matches Some(c) && c@ == joined(d@, cache_name(addon_id, *self)),
                None => r.cache_path is None,
            },
    {
        let p = self.file_paths_part_new(disabled);
        self.with_cache(p, addon_id, conf)
    }

    /// `file_paths_part_current` with the shared cache location, if one is configured.
    pub fn file_paths_current(&self, addon_id: AddonID, path_exists: bool, disabled_is_file: bool, conf: &Conf) -> (r: FilePaths)
        ensures
            current_paths(*self, addon_id, path_exists, disabled_is_file, *conf, r),
            r.disabled == (!path_exists && disabled_is_file),
            r.part_path@ == self.file_name@ + ".part"@,
            !r.disabled ==> r.path@ == self.file_name@ && r.url_txt_path@ == self.file_name@ + ".url.txt"@,
            r.disabled ==> r.path@ == self.file_name@ + ".disabled"@ && r.url_txt_path@ == self.file_name@ + ".disabled.url.txt"@,
            match conf.symlink_cache_path {
                Some(d) => r.cache_path matches Some(c) && c@ == joined(d@, cache_name(addon_id, *self)),
                None => r.cache_path is None,
            },
    {
        let p = self.file_paths_part_current(path_exists, disabled_is_file);
        self.with_cache(p, addon_id, conf)
    }
}

impl FilePathsPart {
    /// Removing the install: its sidecar, then the file.
    pub fn remove(&self) -> (r: Vec<FsAction>)
        ensures
            r@ == seq![FsAction::RemoveIfExists(self.url_txt_path), FsAction::RemoveIfExists(self.path)],
    {
        let mut v: Vec<FsAction> = Vec::new();
        v.push(FsAction::RemoveIfExists(self.url_txt_path.clone()));
        v.push(FsAction::RemoveIfExists(self.path.clone()));
        assert(v@ =~= seq![FsAction::RemoveIfExists(self.url_txt_path), FsAction::RemoveIfExists(self.path)]);
        v
    }
}

impl FilePaths {
    /// Removing the install: its sidecar, then the file.
    pub fn remove(&self) -> (r: Vec<FsAction>)
        ensures
            r@ == seq![FsAction::RemoveIfExists(self.url_txt_path), FsAction::RemoveIfExists(self.path)],
    {
        let mut v: Vec<FsAction> = Vec::new();
        v.push(FsAction::RemoveIfExists(self.url_txt_path.clone()));
        v.push(FsAction::RemoveIfExists(self.path.clone()));
        assert(v@ =~= seq![FsAction::RemoveIfExists(self.url_txt_path), FsAction::RemoveIfExists(self.path)]);
        v
    }

    /// Removing a superseded install, sparing what the new install uses.
    pub fn remove_if_not_new(&self, new: &Self) -> (r: Vec<FsAction>)
        ensures
            r@ == removal(*self, *new),
            r@ == (if new.url_txt_path@ != self.url_txt_path@ { seq![FsAction::RemoveIfExists(self.url_txt_path)] } else { seq![] })
                + (if new.path@ != self.path@ { seq![FsAction::RemoveIfExists(self.path)] } else { seq![] }),
    {
        let mut v: Vec<FsAction> = Vec::new();
        if new.url_txt_path != self.url_txt_path {
            v.push(FsAction::RemoveIfExists(self.url_txt_path.clone()));
        }
        let ghost first = v@;
        if new.path != self.path {
            v.push(FsAction::RemoveIfExists(self.path.clone()));
        }
        assert(v@ =~= (if new.url_txt_path@ != self.url_txt_path@ { seq![FsAction::RemoveIfExists(self.url_txt_path)] } else { seq![] })
                + (if new.path@ != self.path@ { seq![FsAction::RemoveIfExists(self.path)] } else { seq![] }));
        v
    }

    /// The file that validation reads: the cached copy when only the cache is concerned.
    pub fn validate_target(&self, cache_only: bool) -> (r: &String)
        ensures
            (cache_only && self.cache_path is Some) ==> *r == self.cache_path->0,
            !(cache_only && self.cache_path is Some) ==> *r == self.path,
    {
        match &self.cache_path {
            Some(c) => if cache_only { c } else { &self.path },
            None => &self.path,
        }
    }

    /// Where the transfer writes: the cache if one is used, else the `.part` file.
    pub fn download_target(&self) -> (r: &String)
        ensures
            self.cache_path is Some ==> *r == self.cache_path->0,
            self.cache_path is None ==> *r == self.part_path,
    {
        match &self.cache_path {
            Some(c) => c,
            None => &self.part_path,
        }
    }
}

/// What the caller found at a link's destination.
#[derive(Clone, Copy, Debug, PartialEq, Eq, Structural)]
pub enum DestState {
    Missing,
    FileOrLink,
    Directory,
    Unreadable,
}

/// Why a link cannot be staged.
#[derive(Clone, Copy, Debug, PartialEq, Eq, Structural)]
pub enum LinkError {
    /// A directory is in the way.
    Directory,
    /// The destination could not be inspected.
    Unreadable,
}

/// Stages making `dest` a link to `src`, done on commit; nothing where they are the same path.
pub fn create_guarded_symlink_lazy(src: String, dest: String, dest_state: DestState) -> (r: Result<Finalize, LinkError>)
    ensures
        src@ == dest@ ==> (r matches Ok(f) && f.finalize@.len() == 0 && f.cancel@.len() == 0),
        src@ != dest@ && dest_state == DestState::Directory ==> r == Err::<Finalize, LinkError>(LinkError::Directory),
        src@ != dest@ && dest_state == DestState::Unreadable ==> r == Err::<Finalize, LinkError>(LinkError::Unreadable),
        src@ != dest@ && (dest_state == DestState::Missing || dest_state == DestState::FileOrLink) ==> (r matches Ok(f)
            && f.finalize@ == seq![FsAction::Symlink { src, dest }] && f.cancel@.len() == 0),
{
    if src == dest {
        return Ok(Finalize::noop());
    }
    match dest_state {
        DestState::Directory => Err(LinkError::Directory),
        DestState::Unreadable => Err(LinkError::Unreadable),
        _ => {
            let mut finalize: Vec<FsAction> = Vec::new();
            finalize.push(FsAction::Symlink { src, dest });
            assert(finalize@ =~= seq![FsAction::Symlink { src, dest }]);
            Ok(Finalize { finalize, cancel: Vec::new() })
        },
    }
}

impl AddonFile {
    /// How to make a transfer visible once its bytes are stored: link the install to the cache
    /// copy, or move the `.part` file into place; nothing when only the cache is filled, or when
    /// nothing was transferred because the install already held the right bytes.
    pub fn stage_commit(&self, paths: &FilePaths, cache_only: bool, transferred: bool, dest_state: DestState)
        -> (r: Result<Finalize, LinkError>)
        ensures
            cache_only ==> (r matches Ok(f) && f.finalize@.len() == 0 && f.cancel@.len() == 0),
            !cache_only && paths.cache_path is None && !transferred ==> (r matches Ok(f)
                && f.finalize@.len() == 0 && f.cancel@.len() == 0),
            !cache_only && paths.cache_path is None && transferred ==> (r matches Ok(f)
                && f.finalize@ == part_commit(paths.path, paths.part_path) && f.cancel@ == part_rollback(paths.part_path)),
            !cache_only && paths.cache_path is Some && paths.cache_path->0@ == paths.path@
                ==> (r matches Ok(f) && f.finalize@.len() == 0 && f.cancel@.len() == 0),
            !cache_only && paths.cache_path is Some && paths.cache_path->0@ != paths.path@ && dest_state == DestState::Directory
                ==> r == Err::<Finalize, LinkError>(LinkError::Directory),
            !cache_only && paths.cache_path is Some && paths.cache_path->0@ != paths.path@ && dest_state == DestState::Unreadable
                ==> r == Err::<Finalize, LinkError>(LinkError::Unreadable),
            !cache_only && paths.cache_path is Some && paths.cache_path->0@ != paths.path@
                && (dest_state == DestState::Missing || dest_state == DestState::FileOrLink) ==> (r matches Ok(f)
                && f.finalize@ == seq![FsAction::Symlink { src: paths.cache_path->0, dest: paths.path }] && f.cancel@.len() == 0),
    {
        if cache_only {
            return Ok(Finalize::noop());
        }
        match &paths.cache_path {
            Some(c) => create_guarded_symlink_lazy(c.clone(), paths.path.clone(), dest_state),
            None => Ok(Finalize::for_part_path(paths.path.clone(), paths.part_path.clone(), !transferred)),
        }
    }

    /// The provenance sidecar to write for bytes hashing to `sha`, and its guard: if it did not
    /// exist before, rolling back removes it. `None` where the file has no download link.
    pub fn write_url_txt(&self, paths: &FilePaths, sha: &str, did_it_exist: bool) -> (r: Option<(String, Finalize)>)
        ensures
            self.download_url is None ==> r is None,
            self.download_url matches Some(u) ==> (r matches Some(x) && x.0@ == url_txt_text(u.0@, sha@)
                && x.1.finalize@.len() == 0
                && (did_it_exist ==> x.1.cancel@.len() == 0)
                && (!did_it_exist ==> x.1.cancel@ == seq![FsAction::RemoveIfExists(paths.url_txt_path)])),
    {
        match &self.download_url {
            Some(u) => {
                let text = url_txt_content(u.0.as_str(), sha);
                Some((text, Finalize::guard_file(paths.url_txt_path.clone(), did_it_exist)))
            },
            None => None,
        }
    }
}

} // verus!
