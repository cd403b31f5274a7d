use vstd::prelude::*;

use crate::channel::ReleaseTypeMode;
use crate::release_type::ReleaseType;

verus! {

/// Identifier of an addon project.
#[derive(Clone, Copy, Debug, PartialEq, Eq, Hash, Structural)]
pub struct AddonID(pub u64);

/// Identifier of one published file; larger means published later.
#[derive(Clone, Copy, Debug, PartialEq, Eq, Hash, Structural)]
pub struct FileID(pub u64);

/// Human readable project name used in URLs.
#[derive(Clone, Debug)]
pub struct AddonSlug(pub String);

/// Where the bytes of a file can be fetched.
#[derive(Clone, Debug)]
pub struct DownloadURL(pub String);

/// One declared edge from a file to another addon.
#[derive(Clone, Copy, Debug, PartialEq, Eq, Structural)]
pub enum Dependency {
    EmbeddedLibrary(AddonID),
    Optional(AddonID),
    Required(AddonID),
    Tool(AddonID),
    Incompatible(AddonID),
    Include(AddonID),
}

/// Wire number of a dependency kind.
pub open spec fn dep_kind(d: Dependency) -> u64 {
    match d {
        Dependency::EmbeddedLibrary(_) => 1,
        Dependency::Optional(_) => 2,
        Dependency::Required(_) => 3,
        Dependency::Tool(_) => 4,
        Dependency::Incompatible(_) => 5,
        Dependency::Include(_) => 6,
    }
}

/// The addon an edge points to.
pub open spec fn dep_target(d: Dependency) -> AddonID {
    match d {
        Dependency::EmbeddedLibrary(i) => i,
        Dependency::Optional(i) => i,
        Dependency::Required(i) => i,
        Dependency::Tool(i) => i,
        Dependency::Incompatible(i) => i,
        Dependency::Include(i) => i,
    }
}

/// The edge of kind `k` towards `id`.
pub open spec fn dep_of_kind(k: u64, id: AddonID) -> Option<Dependency> {
    if k == 1 {
        Some(Dependency::EmbeddedLibrary(id))
    } else if k == 2 {
        Some(Dependency::Optional(id))
    } else if k == 3 {
        Some(Dependency::Required(id))
    } else if k == 4 {
        Some(Dependency::Tool(id))
    } else if k == 5 {
        Some(Dependency::Incompatible(id))
    } else if k == 6 {
        Some(Dependency::Include(id))
    } else {
        None
    }
}

pub const KIND_EMBEDDED_LIBRARY: u64 = 1;
pub const KIND_OPTIONAL: u64 = 2;
pub const KIND_REQUIRED: u64 = 3;
pub const KIND_TOOL: u64 = 4;
pub const KIND_INCOMPATIBLE: u64 = 5;
pub const KIND_INCLUDE: u64 = 6;

/// The targets of the edges of kind `k`, in declaration order.
pub open spec fn kind_ids(s: Seq<Dependency>, k: u64) -> Seq<AddonID>
    decreases s.len(),
{
    if s.len() == 0 {
        Seq::empty()
    } else {
        let rest = kind_ids(s.drop_last(), k);
        if dep_kind(s.last()) == k {
            rest.push(dep_target(s.last()))
        } else {
            rest
        }
    }
}

/// An edge is determined by its kind and its target.
pub proof fn lemma_dep_determined(a: Dependency, b: Dependency)
    requires
        dep_kind(a) == dep_kind(b),
        dep_target(a) == dep_target(b),
    ensures
        a == b,
{
    match a {
        Dependency::EmbeddedLibrary(_) => {},
        Dependency::Optional(_) => {},
        Dependency::Required(_) => {},
        Dependency::Tool(_) => {},
        Dependency::Incompatible(_) => {},
        Dependency::Include(_) => {},
    }
}

impl Dependency {
    pub fn id(&self) -> (r: AddonID)
        ensures
            r == dep_target(*self),
    {
        match self {
            Dependency::EmbeddedLibrary(i) => *i,
            Dependency::Optional(i) => *i,
            Dependency::Required(i) => *i,
            Dependency::Tool(i) => *i,
            Dependency::Incompatible(i) => *i,
            Dependency::Include(i) => *i,
        }
    }

    pub fn idx(&self) -> (r: u64)
        ensures
            r == dep_kind(*self),
    {
        match self {
            Dependency::EmbeddedLibrary(_) => 1,
            Dependency::Optional(_) => 2,
            Dependency::Required(_) => 3,
            Dependency::Tool(_) => 4,
            Dependency::Incompatible(_) => 5,
            Dependency::Include(_) => 6,
        }
    }

    pub fn from_idx(idx: u64, id: AddonID) -> (r: Option<Self>)
        ensures
            r == dep_of_kind(idx, id),
            r matches Some(d) ==> dep_kind(d) == idx && dep_target(d) == id,
    {
        if idx == 1 {
            Some(Dependency::EmbeddedLibrary(id))
        } else if idx == 2 {
            Some(Dependency::Optional(id))
        } else if idx == 3 {
            Some(Dependency::Required(id))
        } else if idx == 4 {
            Some(Dependency::Tool(id))
        } else if idx == 5 {
            Some(Dependency::Incompatible(id))
        } else if idx == 6 {
            Some(Dependency::Include(id))
        } else {
            None
        }
    }
}

/// The ordered list of edges that a file declares.
#[derive(Clone, Debug)]
pub struct Dependencies(pub Vec<Dependency>);

impl View for Dependencies {
    type V = Seq<Dependency>;

    open spec fn view(&self) -> Seq<Dependency> {
        self.0@
    }
}

impl Dependencies {
    fn ids_of_kind(&self, k: u64) -> (r: Vec<AddonID>)
        ensures
            r@ == kind_ids(self@, k),
    {
        let mut out: Vec<AddonID> = Vec::new();
        let mut i: usize = 0;
        while i < self.0.len()
            invariant
                i <= self.0@.len(),
                out@ == kind_ids(self.0@.subrange(0, i as int), k),
            decreases self.0@.len() - i,
        {
            let d = self.0[i];
            assert(self.0@.subrange(0, i as int + 1).drop_last() =~= self.0@.subrange(0, i as int));
            if d.idx() == k {
                out.push(d.id());
            }
            i = i + 1;
        }
        assert(self.0@.subrange(0, i as int) =~= self.0@);
        out
    }

    pub fn iter_embedded_library(&self) -> (r: Vec<AddonID>)
        ensures
            r@ == kind_ids(self@, KIND_EMBEDDED_LIBRARY),
    {
        self.ids_of_kind(KIND_EMBEDDED_LIBRARY)
    }

    pub fn iter_optional(&self) -> (r: Vec<AddonID>)
        ensures
            r@ == kind_ids(self@, KIND_OPTIONAL),
    {
        self.ids_of_kind(KIND_OPTIONAL)
    }

    pub fn iter_required(&self) -> (r: Vec<AddonID>)
        ensures
            r@ == kind_ids(self@, KIND_REQUIRED),
    {
        self.ids_of_kind(KIND_REQUIRED)
    }

    pub fn iter_tool(&self) -> (r: Vec<AddonID>)
        ensures
            r@ == kind_ids(self@, KIND_TOOL),
    {
        self.ids_of_kind(KIND_TOOL)
    }

    pub fn iter_incompatible(&self) -> (r: Vec<AddonID>)
        ensures
            r@ == kind_ids(self@, KIND_INCOMPATIBLE),
    {
        self.ids_of_kind(KIND_INCOMPATIBLE)
    }

    pub fn iter_include(&self) -> (r: Vec<AddonID>)
        ensures
            r@ == kind_ids(self@, KIND_INCLUDE),
    {
        self.ids_of_kind(KIND_INCLUDE)
    }

    /// Whether `new` requires an addon that `self` does not require.
    pub fn new_required(&self, new: &Dependencies) -> (r: bool)
        ensures
            r == exists|j: int|
                0 <= j < new@.len() && dep_kind(#[trigger] new@[j]) == KIND_REQUIRED
                    && !self@.contains(new@[j]),
    {
        let mut i: usize = 0;
        while i < new.0.len()
            invariant
                i <= new@.len(),
                forall|j: int|
                    0 <= j < i && dep_kind(#[trigger] new@[j]) == KIND_REQUIRED ==> self@.contains(new@[j]),
            decreases new@.len() - i,
        {
            let d = new.0[i];
            if d.idx() == KIND_REQUIRED {
                let want = Dependency::Required(d.id());
                assert(want == d) by {
                    assert(dep_kind(d) == KIND_REQUIRED);
                }
                let mut found = false;
                let mut k: usize = 0;
                while k < self.0.len()
                    invariant
                        k <= self@.len(),
                        want == d,
                        found ==> self@.contains(d),
                        !found ==> forall|m: int| 0 <= m < k ==> self@[m] != d,
                    decreases self@.len() - k,
                {
                    let e = self.0[k];
                    if e.idx() == want.idx() && e.id() == want.id() {
                        proof {
                            lemma_dep_determined(e, want);
                        }
                        found = true;
                        assert(self@[k as int] == d);
                    }
                    k = k + 1;
                }
                if !found {
                    return true;
                }
            }
            i = i + 1;
        }
        false
    }
}

fn copy_string(s: &String) -> (r: String)
    ensures
        r == *s,
{
    s.clone()
}

fn copy_opt_string(s: &Option<String>) -> (r: Option<String>)
    ensures
        r == *s,
{
    match s {
        Some(v) => Some(copy_string(v)),
        None => None,
    }
}

impl Dependencies {
    /// A copy with the same edges.
    pub fn duplicate(&self) -> (r: Self)
        ensures
            r@ == self@,
    {
        let mut out: Vec<Dependency> = Vec::new();
        let mut i: usize = 0;
        while i < self.0.len()
            invariant
                i <= self@.len(),
                out@ == self@.subrange(0, i as int),
            decreases self@.len() - i,
        {
            out.push(self.0[i]);
            i = i + 1;
            assert(out@ =~= self@.subrange(0, i as int));
        }
        assert(out@ =~= self.0@);
        Dependencies(out)
    }
}

/// A game version string that a file declares support for.
#[derive(Clone, Debug)]
pub struct FileGameVersion {
    pub str: String,
}

/// A published file of an addon.
#[derive(Clone, Debug)]
pub struct AddonFile {
    pub id: FileID,
    pub display_name: String,
    pub file_name: String,
    pub file_date: String,
    pub file_length: u64,
    pub release_type: ReleaseType,
    pub download_url: Option<DownloadURL>,
    pub is_alternate: bool,
    pub alternate_file_id: u64,
    pub dependencies: Dependencies,
    pub is_available: bool,
    pub package_fingerprint: u32,
    pub game_version: Vec<FileGameVersion>,
    pub has_install_script: bool,
    pub sha1_hash: Option<String>,
}

impl FileGameVersion {
    pub fn duplicate(&self) -> (r: Self)
        ensures
            r == *self,
    {
        FileGameVersion { str: copy_string(&self.str) }
    }

    pub fn as_str(&self) -> (r: &str)
        ensures
            r@ == self.str@,
    {
        self.str.as_str()
    }
}

fn copy_game_versions(v: &Vec<FileGameVersion>) -> (r: Vec<FileGameVersion>)
    ensures
        r@ == v@,
{
    let mut out: Vec<FileGameVersion> = Vec::new();
    let mut i: usize = 0;
    while i < v.len()
        invariant
            i <= v@.len(),
            out@ == v@.subrange(0, i as int),
        decreases v@.len() - i,
    {
        out.push(v[i].duplicate());
        i = i + 1;
        assert(out@ =~= v@.subrange(0, i as int));
    }
    assert(out@ =~= v@);
    out
}

impl AddonFile {
    /// Whether two records describe the same file, field by field.
    pub open spec fn same_as(&self, o: &AddonFile) -> bool {
        &&& self.id == o.id
        &&& self.display_name == o.display_name
        &&& self.file_name == o.file_name
        &&& self.file_date == o.file_date
        &&& self.file_length == o.file_length
        &&& self.release_type == o.release_type
        &&& self.download_url == o.download_url
        &&& self.is_alternate == o.is_alternate
        &&& self.alternate_file_id == o.alternate_file_id
        &&& self.dependencies@ == o.dependencies@
        &&& self.is_available == o.is_available
        &&& self.package_fingerprint == o.package_fingerprint
        &&& self.game_version@ == o.game_version@
        &&& self.has_install_script == o.has_install_script
        &&& self.sha1_hash == o.sha1_hash
    }

    /// A copy of the same file.
    pub fn duplicate(&self) -> (r: Self)
        ensures
            r.same_as(self),
    {
        let download_url = match &self.download_url {
            Some(u) => Some(DownloadURL(copy_string(&u.0))),
            None => None,
        };
        let game_version = copy_game_versions(&self.game_version);
        AddonFile {
            id: self.id,
            display_name: copy_string(&self.display_name),
            file_name: copy_string(&self.file_name),
            file_date: copy_string(&self.file_date),
            file_length: self.file_length,
            release_type: self.release_type,
            download_url,
            is_alternate: self.is_alternate,
            alternate_file_id: self.alternate_file_id,
            dependencies: self.dependencies.duplicate(),
            is_available: self.is_available,
            package_fingerprint: self.package_fingerprint,
            game_version,
            has_install_script: self.has_install_script,
            sha1_hash: copy_opt_string(&self.sha1_hash),
        }
    }
}

/// When an installed addon takes part in updates.
#[derive(Clone, Copy, Debug, PartialEq, Eq, Structural)]
pub enum UpdateOpt {
    /// Update on implicit and update-all
    All,
    /// Update on implicit, but not on update-all
    Implicit,
    /// Only update on explicit
    Explicit,
}

/// What the local repository keeps about one addon.
#[derive(Clone, Debug)]
pub struct LocalAddon {
    pub id: AddonID,
    pub slug: AddonSlug,
    pub name: String,
    pub channel: ReleaseTypeMode,
    pub update_opt: UpdateOpt,
    pub manually_installed: bool,
    /// blacklist versions with occurrence in game versions or filename
    pub version_blacklist: Option<String>,
    pub positive_negative_in_filename: bool,
    pub installed: Option<AddonFile>,
}

/// Default of `positive_negative_in_filename` for records that lack it.
pub fn default_positive_negative_in_filename() -> (r: bool)
    ensures
        r,
{
    true
}

/// The local repository's records, at most one per addon id.
#[derive(Clone, Debug)]
pub struct LocalAddons(pub Vec<LocalAddon>);

/// No two records share an id.
pub open spec fn ids_unique(s: Seq<LocalAddon>) -> bool {
    forall|i: int, j: int| 0 <= i < s.len() && 0 <= j < s.len() && i != j ==> #[trigger] s[i].id != #[trigger] s[j].id
}

/// Whether some record has this id.
pub open spec fn has_id(s: Seq<LocalAddon>, id: AddonID) -> bool {
    exists|i: int| 0 <= i < s.len() && #[trigger] s[i].id == id
}

impl View for LocalAddons {
    type V = Seq<LocalAddon>;

    open spec fn view(&self) -> Seq<LocalAddon> {
        self.0@
    }
}

impl LocalAddons {
    pub open spec fn wf(&self) -> bool {
        ids_unique(self@)
    }

    /// An empty repository.
    pub fn new() -> (r: Self)
        ensures
            r@.len() == 0,
            r.wf(),
    {
        LocalAddons(Vec::new())
    }

    /// The position of the record with this id.
    pub fn position(&self, id: AddonID) -> (r: Option<usize>)
        ensures
            match r {
                Some(i) => i < self@.len() && self@[i as int].id == id,
                None => !has_id(self@, id),
            },
    {
        let mut i: usize = 0;
        while i < self.0.len()
            invariant
                i <= self@.len(),
                forall|k: int| 0 <= k < i ==> #[trigger] self@[k].id != id,
            decreases self@.len() - i,
        {
            if self.0[i].id == id {
                return Some(i);
            }
            i = i + 1;
        }
        None
    }

    /// The record with this id.
    pub fn get(&self, id: AddonID) -> (r: Option<&LocalAddon>)
        ensures
            match r {
                Some(a) => exists|i: int| 0 <= i < self@.len() && self@[i] == *a && a.id == id,
                None => !has_id(self@, id),
            },
    {
        match self.position(id) {
            Some(i) => Some(&self.0[i]),
            None => None,
        }
    }

    /// Whether the addon with this id has a record with an installed file.
    pub fn is_installed(&self, id: AddonID) -> (r: bool)
        requires
            self.wf(),
        ensures
            r == exists|i: int| 0 <= i < self@.len() && #[trigger] self@[i].id == id && self@[i].installed is Some,
    {
        match self.position(id) {
            Some(i) => {
                let b = self.0[i].installed.is_some();
                proof {
                    if !b {
                        assert forall|k: int| 0 <= k < self@.len() && #[trigger] self@[k].id == id implies self@[k].installed is None by {
                            if k != i {
                                assert(self@[i as int].id == self@[k].id);
                            }
                        }
                    }
                }
                b
            },
            None => false,
        }
    }

    /// Puts `a` in place of the record with the same id, or adds it.
    pub fn insert(&mut self, a: LocalAddon)
        requires
            old(self).wf(),
        ensures
            final(self).wf(),
            has_id(final(self)@, a.id),
            forall|i: int| 0 <= i < final(self)@.len() && #[trigger] final(self)@[i].id == a.id ==> final(self)@[i] == a,
            forall|i: int| 0 <= i < old(self)@.len() && old(self)@[i].id != a.id ==> final(self)@.contains(#[trigger] old(self)@[i]),
            forall|i: int| 0 <= i < final(self)@.len() && #[trigger] final(self)@[i].id != a.id ==> old(self)@.contains(final(self)@[i]),
    {
        let id = a.id;
        match self.position(id) {
            Some(i) => {
                self.0.set(i, a);
                assert(final(self)@[i as int].id == id);
                assert forall|k: int| 0 <= k < old(self)@.len() && old(self)@[k].id != id implies final(self)@.contains(#[trigger] old(self)@[k]) by {
                    assert(final(self)@[k] == old(self)@[k]);
                }
                assert forall|k: int| 0 <= k < final(self)@.len() && #[trigger] final(self)@[k].id != id implies old(self)@.contains(final(self)@[k]) by {
                    assert(final(self)@[k] == old(self)@[k]);
                }
            },
            None => {
                self.0.push(a);
                let ghost n = old(self)@.len() as int;
                assert(final(self)@[n].id == id);
                assert forall|k: int| 0 <= k < old(self)@.len() && old(self)@[k].id != id implies final(self)@.contains(#[trigger] old(self)@[k]) by {
                    assert(final(self)@[k] == old(self)@[k]);
                }
                assert forall|k: int| 0 <= k < final(self)@.len() && #[trigger] final(self)@[k].id != id implies old(self)@.contains(final(self)@[k]) by {
                    assert(final(self)@[k] == old(self)@[k]);
                }
            },
        }
    }
}

/// Dependencies ordered by kind, then by target id.
pub open spec fn dep_key_le(a: Dependency, b: Dependency) -> bool {
    dep_kind(a) < dep_kind(b) || (dep_kind(a) == dep_kind(b) && dep_target(a).0 <= dep_target(b).0)
}

pub open spec fn deps_sorted(s: Seq<Dependency>) -> bool {
    forall|i: int, j: int| 0 <= i < j < s.len() ==> dep_key_le(#[trigger] s[i], #[trigger] s[j])
}

fn key_less(a: &Dependency, b: &Dependency) -> (r: bool)
    ensures
        r == !dep_key_le(*b, *a),
{
    let ka = a.idx();
    let kb = b.idx();
    ka < kb || (ka == kb && a.id().0 < b.id().0)
}

impl LocalAddons {
    /// Orders the dependencies of every installed file, as kept on disk.
    pub fn sort_deps(&mut self)
        requires
            old(self).wf(),
        ensures
            final(self).wf(),
            final(self)@.len() == old(self)@.len(),
            forall|i: int| 0 <= i < final(self)@.len() ==> (#[trigger] final(self)@[i]).id == old(self)@[i].id
                && (final(self)@[i].installed is Some <==> old(self)@[i].installed is Some)
                && (final(self)@[i].installed matches Some(f) ==> deps_sorted(f.dependencies@)),
    {
        let mut src: Vec<LocalAddon> = Vec::new();
        std::mem::swap(&mut src, &mut self.0);
        let ghost orig = src@;
        let mut out: Vec<LocalAddon> = Vec::new();
        let mut i: usize = 0;
        while i < src.len()
            invariant
                src@ == orig,
                ids_unique(orig),
                i <= src@.len(),
                out@.len() == i,
                forall|k: int| 0 <= k < i ==> (#[trigger] out@[k]).id == orig[k].id
                    && (out@[k].installed is Some <==> orig[k].installed is Some)
                    && (out@[k].installed matches Some(f) ==> deps_sorted(f.dependencies@)),
            decreases src@.len() - i,
        {
            let mut a = src[i].clone_record();
            match a.installed {
                Some(mut f) => {
                    f.sort_deps();
                    a.installed = Some(f);
                },
                None => {},
            }
            out.push(a);
            i = i + 1;
        }
        self.0 = out;
        assert(ids_unique(self@)) by {
            assert forall|x: int, y: int| 0 <= x < self@.len() && 0 <= y < self@.len() && x != y
                implies #[trigger] self@[x].id != #[trigger] self@[y].id by {
                assert(self@[x].id == orig[x].id && self@[y].id == orig[y].id);
            }
        }
    }
}

impl LocalAddon {
    /// A copy of the record.
    pub fn clone_record(&self) -> (r: Self)
        ensures
            r.id == self.id,
            r.slug.0 == self.slug.0,
            r.name == self.name,
            r.channel == self.channel,
            r.update_opt == self.update_opt,
            r.manually_installed == self.manually_installed,
            r.version_blacklist == self.version_blacklist,
            r.positive_negative_in_filename == self.positive_negative_in_filename,
            r.installed is Some <==> self.installed is Some,
            r.installed matches Some(f) ==> f.same_as(&self.installed->0),
    {
        LocalAddon {
            id: self.id,
            slug: AddonSlug(copy_string(&self.slug.0)),
            name: copy_string(&self.name),
            channel: self.channel,
            update_opt: self.update_opt,
            manually_installed: self.manually_installed,
            version_blacklist: copy_opt_string(&self.version_blacklist),
            positive_negative_in_filename: self.positive_negative_in_filename,
            installed: match &self.installed {
                Some(f) => Some(f.duplicate()),
                None => None,
            },
        }
    }
}

impl AddonFile {
    /// Orders the file's dependencies by kind, then by target id, keeping the same edges.
    pub fn sort_deps(&mut self)
        ensures
            deps_sorted(final(self).dependencies@),
            final(self).dependencies@.to_multiset() == old(self).dependencies@.to_multiset(),
            final(self).id == old(self).id,
            final(self).file_name == old(self).file_name,
            final(self).game_version == old(self).game_version,
            final(self).sha1_hash == old(self).sha1_hash,
            final(self).release_type == old(self).release_type,
    {
        broadcast use vstd::seq_lib::group_to_multiset_ensures;
        let mut src: Vec<Dependency> = Vec::new();
        std::mem::swap(&mut src, &mut self.dependencies.0);
        let ghost orig = src@;
        let mut out: Vec<Dependency> = Vec::new();
        let mut i: usize = 0;
        while i < src.len()
            invariant
                src@ == orig,
                i <= src@.len(),
                deps_sorted(out@),
                out@.to_multiset() == src@.subrange(0, i as int).to_multiset(),
            decreases src@.len() - i,
        {
            let x = src[i];
            let mut pos: usize = 0;
            while pos < out.len() && !key_less(&x, &out[pos])
                invariant
                    pos <= out@.len(),
                    forall|k: int| 0 <= k < pos ==> dep_key_le(#[trigger] out@[k], x),
                decreases out@.len() - pos,
            {
                pos = pos + 1;
            }
            let ghost before = out@;
            out.insert(pos, x);
            proof {
                assert(out@ == before.insert(pos as int, x));
                assert forall|a: int, b: int| 0 <= a < b < out@.len() implies dep_key_le(#[trigger] out@[a], #[trigger] out@[b]) by {
                    if b < pos {
                        assert(out@[a] == before[a] && out@[b] == before[b]);
                    } else if b == pos {
                        assert(out@[a] == before[a]);
                    } else if a < pos {
                        assert(out@[a] == before[a] && out@[b] == before[b - 1]);
                        assert(dep_key_le(before[a], x));
                        assert(pos < before.len());
                        assert(!dep_key_le(x, before[pos as int]) ==> false);
                        assert(dep_key_le(before[pos as int], before[b - 1]) || pos as int == b - 1);
                    } else if a == pos {
                        assert(out@[b] == before[b - 1]);
                        assert(dep_key_le(before[pos as int], before[b - 1]) || pos as int == b - 1);
                    } else {
                        assert(out@[a] == before[a - 1] && out@[b] == before[b - 1]);
                    }
                }
                assert(src@.subrange(0, i as int + 1) =~= src@.subrange(0, i as int).push(x));
                vstd::seq_lib::to_multiset_insert(before, pos as int, x);
                vstd::seq_lib::to_multiset_build(src@.subrange(0, i as int), x);
            }
            i = i + 1;
        }
        assert(src@.subrange(0, i as int) =~= orig);
        self.dependencies.0 = out;
    }
}

} // verus!
