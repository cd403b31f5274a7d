use vstd::prelude::*;

use crate::addon::AddonFile;
use crate::text::{chars_of, is_white_space, string_of, trim_end_ws, trim_of, trim_start_ws, trimmed};
use crate::transfer::{hex_digit, hex_lower, sha1_of};

verus! {

/// What validation found out about an install.
#[derive(Clone, Debug)]
pub struct ValidateResult {
    /// The hash the file should have, or empty where none is known.
    pub sha: String,
    pub file_exist: bool,
    pub file_valid: bool,
    pub urltxt_exist: bool,
    pub urltxt_valid: bool,
}

/// What the caller found on disk.
#[derive(Clone, Debug)]
pub struct DiskState {
    pub file_exist: bool,
    /// The file's length, where it exists.
    pub file_len: u64,
    /// The lowercase hex SHA-1 of the file's bytes, where it exists and has the expected length.
    pub file_sha: Option<String>,
    pub urltxt_exist: bool,
    /// The sidecar's text, where it exists.
    pub urltxt_text: Option<String>,
}

/// Why validation could not be done.
#[derive(Clone, Copy, Debug, PartialEq, Eq, Structural)]
pub enum ValidateError {
    /// The file has no download link to compare the sidecar with.
    NoDownloadLink,
}

/// The first position at or after `i` holding a line feed, or the end.
pub open spec fn line_end(s: Seq<char>, i: int) -> int
    decreases s.len() - i,
{
    if i >= s.len() || s[i] == '\n' {
        i
    } else {
        line_end(s, i + 1)
    }
}

proof fn lemma_line_end(s: Seq<char>, i: int)
    requires
        0 <= i <= s.len(),
    ensures
        i <= line_end(s, i) <= s.len(),
        line_end(s, i) < s.len() ==> s[line_end(s, i)] == '\n',
    decreases s.len() - i,
{
    if i < s.len() && s[i] != '\n' {
        lemma_line_end(s, i + 1);
    }
}

/// A line without a trailing carriage return.
pub open spec fn strip_cr(l: Seq<char>) -> Seq<char> {
    if l.len() > 0 && l.last() == '\r' {
        l.drop_last()
    } else {
        l
    }
}

/// The first two lines of a text, where it has two.
pub open spec fn two_lines(s: Seq<char>) -> Option<(Seq<char>, Seq<char>)> {
    let e1 = line_end(s, 0);
    if e1 + 1 >= s.len() {
        None
    } else {
        let e2 = line_end(s, e1 + 1);
        Some((strip_cr(s.subrange(0, e1)), strip_cr(s.subrange(e1 + 1, e2))))
    }
}

/// The sidecar's text: the trimmed source URL and the hash, one per line.
pub open spec fn url_txt_text(url: Seq<char>, sha: Seq<char>) -> Seq<char> {
    trim_of(url) + seq!['\n'] + sha + seq!['\n']
}

/// The sidecar's text for a file fetched from `url` whose bytes hash to `sha`.
pub fn url_txt_content(url: &str, sha: &str) -> (r: String)
    ensures
        r@ == url_txt_text(url@, sha@),
{
    let t = trimmed(url);
    let mut out = chars_of(t.as_str());
    out.push('\n');
    let mut h = chars_of(sha);
    out.append(&mut h);
    out.push('\n');
    assert(out@ =~= url_txt_text(url@, sha@));
    string_of(out.as_slice())
}

fn line_from(c: &Vec<char>, i: usize) -> (r: usize)
    requires
        i <= c@.len(),
    ensures
        r == line_end(c@, i as int),
{
    let mut k = i;
    while k < c.len() && c[k] != '\n'
        invariant
            i <= k <= c@.len(),
            line_end(c@, i as int) == line_end(c@, k as int),
        decreases c@.len() - k,
    {
        k = k + 1;
    }
    k
}

fn slice_line(c: &Vec<char>, a: usize, b: usize) -> (r: String)
    requires
        a <= b <= c@.len(),
    ensures
        r@ == strip_cr(c@.subrange(a as int, b as int)),
{
    let mut out: Vec<char> = Vec::new();
    let mut k = a;
    while k < b
        invariant
            a <= k <= b,
            b <= c@.len(),
            out@ == c@.subrange(a as int, k as int),
        decreases b - k,
    {
        out.push(c[k]);
        k = k + 1;
        assert(out@ =~= c@.subrange(a as int, k as int));
    }
    if out.len() > 0 && out[out.len() - 1] == '\r' {
        out.pop();
        assert(out@ =~= c@.subrange(a as int, b as int).drop_last());
    }
    string_of(out.as_slice())
}

/// The first two lines of a text, without line endings.
pub fn url_txt_lines(text: &str) -> (r: Option<(String, String)>)
    ensures
        match two_lines(text@) {
            Some(x) => r matches Some(y) && y.0@ == x.0 && y.1@ == x.1,
            None => r is None,
        },
{
    let c = chars_of(text);
    proof {
        lemma_line_end(c@, 0);
    }
    let e1 = line_from(&c, 0);
    if e1 >= c.len() || e1 + 1 >= c.len() {
        return None;
    }
    proof {
        lemma_line_end(c@, e1 + 1);
    }
    let e2 = line_from(&c, e1 + 1);
    Some((slice_line(&c, 0, e1), slice_line(&c, e1 + 1, e2)))
}

/// The hash the file should have: the server's, else the sidecar's, else none.
pub open spec fn known_hash(file: AddonFile, lines: Option<(Seq<char>, Seq<char>)>) -> Option<Seq<char>> {
    match file.sha1_hash {
        Some(h) => Some(h@),
        None => match lines {
            Some(l) => Some(trim_of(l.1)),
            None => None,
        },
    }
}

/// The sidecar's lines, where it is consulted and has two.
pub open spec fn consulted_lines(disk: DiskState, cache_only: bool) -> Option<(Seq<char>, Seq<char>)> {
    if disk.urltxt_exist && !cache_only {
        match disk.urltxt_text {
            Some(t) => two_lines(t@),
            None => None,
        }
    } else {
        None
    }
}

/// Whether the sidecar names the file's URL and the hash the file should have.
pub open spec fn urltxt_valid_spec(file: AddonFile, disk: DiskState, cache_only: bool) -> bool {
    match consulted_lines(disk, cache_only) {
        Some(l) => match file.download_url {
            Some(u) => trim_of(l.0) == trim_of(u.0@) && known_hash(file, Some(l)) == Some(trim_of(l.1)),
            None => false,
        },
        None => false,
    }
}

/// The hash reported: the known one, or empty.
pub open spec fn resolved_hash(file: AddonFile, disk: DiskState, cache_only: bool) -> Seq<char> {
    match known_hash(file, consulted_lines(disk, cache_only)) {
        Some(h) => h,
        None => seq![],
    }
}

/// The file is there, has the right length and the hash it should have.
pub open spec fn file_valid_spec(file: AddonFile, disk: DiskState, cache_only: bool) -> bool {
    &&& disk.file_exist
    &&& disk.file_len == file.file_length
    &&& disk.file_sha matches Some(s) && s@ == resolved_hash(file, disk, cache_only)
}

/// The server declared exactly this hash.
pub open spec fn declared_hash_is(file: AddonFile, h: Seq<char>) -> bool {
    match file.sha1_hash {
        Some(x) => x@ == h,
        None => false,
    }
}

impl AddonFile {
    /// Checks an install against what is known of the file, from what the caller found on disk.
    pub fn validate(&self, disk: &DiskState, cache_only: bool) -> (r: Result<ValidateResult, ValidateError>)
        ensures
            (consulted_lines(*disk, cache_only) is Some && self.download_url is None)
                ==> r == Err::<ValidateResult, ValidateError>(ValidateError::NoDownloadLink),
            !(consulted_lines(*disk, cache_only) is Some && self.download_url is None) ==> (r matches Ok(v)
                && v.sha@ == resolved_hash(*self, *disk, cache_only)
                && v.file_exist == disk.file_exist
                && v.file_valid == file_valid_spec(*self, *disk, cache_only)
                && v.urltxt_exist == disk.urltxt_exist
                && v.urltxt_valid == urltxt_valid_spec(*self, *disk, cache_only)),
    {
        let mut file_hash: Option<String> = match &self.sha1_hash {
            Some(h) => Some(h.clone()),
            None => None,
        };
        let mut urltxt_valid = false;
        let lines = if disk.urltxt_exist && !cache_only {
            match &disk.urltxt_text {
                Some(t) => url_txt_lines(t.as_str()),
                None => None,
            }
        } else {
            None
        };
        match &lines {
            Some((line_url, line_hash)) => {
                let th = trimmed(line_hash.as_str());
                if file_hash.is_none() {
                    file_hash = Some(th.clone());
                }
                let download_url = match &self.download_url {
                    Some(u) => u,
                    None => { return Err(ValidateError::NoDownloadLink); },
                };
                let tu = trimmed(line_url.as_str());
                let du = trimmed(download_url.0.as_str());
                let same_hash = match &file_hash {
                    Some(h) => th == *h,
                    None => false,
                };
                urltxt_valid = tu == du && same_hash;
            },
            None => {},
        }
        let sha = match file_hash {
            Some(h) => h,
            None => String::new(),
        };
        let file_valid = disk.file_exist && self.file_length == disk.file_len && match &disk.file_sha {
            Some(s) => *s == sha,
            None => false,
        };
        Ok(ValidateResult {
            sha,
            file_exist: disk.file_exist,
            file_valid,
            urltxt_exist: disk.urltxt_exist,
            urltxt_valid,
        })
    }

    /// The hash of an install that is already correct, or none: its length must match and the
    /// server must have declared a hash equal to `disk_sha`.
    pub fn is_downloaded_addon_valid(&self, disk_len: u64, disk_sha: &String) -> (r: Option<String>)
        ensures
            (disk_len == self.file_length && declared_hash_is(*self, disk_sha@)) ==> r == Some(*disk_sha),
            !(disk_len == self.file_length && declared_hash_is(*self, disk_sha@)) ==> r is None,
    {
        if self.file_length != disk_len {
            return None;
        }
        match &self.sha1_hash {
            Some(h) => if *h == *disk_sha { Some(disk_sha.clone()) } else { None },
            None => None,
        }
    }
}

/// What an install needs after validation.
#[derive(Clone, Copy, Debug, PartialEq, Eq, Structural)]
pub enum Repair {
    /// The file must be fetched again.
    Download,
    /// The file is fine; only its provenance sidecar must be written.
    WriteUrlTxt,
    /// Nothing.
    Nothing,
}

/// Decides, from a validation, whether to fetch the file again or only rewrite its sidecar.
pub fn validate_download(v: &ValidateResult, url_txt: bool, cache_only: bool) -> (r: Repair)
    ensures
        !v.file_valid ==> r == Repair::Download,
        v.file_valid && url_txt && !v.urltxt_valid && !cache_only ==> r == Repair::WriteUrlTxt,
        v.file_valid && !(url_txt && !v.urltxt_valid && !cache_only) ==> r == Repair::Nothing,
{
    if !v.file_valid {
        Repair::Download
    } else if url_txt && !v.urltxt_valid && !cache_only {
        Repair::WriteUrlTxt
    } else {
        Repair::Nothing
    }
}

/// Bytes that passed the transfer checks against a server-declared hash validate once on disk:
/// the file counts as valid and its hash is reported.
pub proof fn lemma_round_trip_hash(file: AddonFile, body: Seq<u8>, disk: DiskState, cache_only: bool)
    requires
        file.sha1_hash matches Some(h) && h@ == hex_lower(sha1_of(body)),
        body.len() == file.file_length,
        disk.file_exist,
        disk.file_len == body.len(),
        disk.file_sha matches Some(s) && s@ == hex_lower(sha1_of(body)),
    ensures
        file_valid_spec(file, disk, cache_only),
        resolved_hash(file, disk, cache_only) == hex_lower(sha1_of(body)),
{
}

/// Hex text holds only digits and the letters a to f.
proof fn lemma_hex_chars(b: Seq<u8>)
    ensures
        forall|i: int| 0 <= i < hex_lower(b).len() ==> {
            let c = #[trigger] hex_lower(b)[i];
            ('0' <= c && c <= '9') || ('a' <= c && c <= 'f')
        },
        hex_lower(b).len() == 2 * b.len(),
    decreases b.len(),
{
    if b.len() > 0 {
        lemma_hex_chars(b.drop_last());
        let hi = b.last() / 16;
        let lo = b.last() % 16;
        assert(hex_digit(hi) == if hi < 10 { (48 + hi) as char } else { (87 + hi) as char });
        let h = hex_lower(b);
        let r = hex_lower(b.drop_last());
        assert forall|i: int| 0 <= i < h.len() implies {
            let c = #[trigger] h[i];
            ('0' <= c && c <= '9') || ('a' <= c && c <= 'f')
        } by {
            if i < r.len() {
                assert(h[i] == r[i]);
            }
        }
    }
}

/// A text that neither starts nor ends with white space is its own trim.
proof fn lemma_trim_identity(s: Seq<char>)
    requires
        s.len() > 0 ==> !is_white_space(s[0]) && !is_white_space(s.last()),
    ensures
        trim_of(s) == s,
{
}

proof fn lemma_trim_start_shape(s: Seq<char>)
    ensures
        trim_start_ws(s).len() > 0 ==> !is_white_space(trim_start_ws(s)[0]),
    decreases s.len(),
{
    if s.len() > 0 && is_white_space(s[0]) {
        lemma_trim_start_shape(s.drop_first());
    }
}

proof fn lemma_trim_end_shape(s: Seq<char>)
    ensures
        exists|k: int| 0 <= k <= s.len() && trim_end_ws(s) == s.subrange(0, k),
        trim_end_ws(s).len() > 0 ==> !is_white_space(trim_end_ws(s).last()),
    decreases s.len(),
{
    if s.len() > 0 && is_white_space(s.last()) {
        lemma_trim_end_shape(s.drop_last());
        let k = choose|k: int| 0 <= k <= s.drop_last().len() && trim_end_ws(s.drop_last()) == s.drop_last().subrange(0, k);
        assert(s.drop_last().subrange(0, k) =~= s.subrange(0, k));
    } else {
        assert(s.subrange(0, s.len() as int) =~= s);
    }
}

/// Trimming twice is trimming once.
proof fn lemma_trim_idempotent(s: Seq<char>)
    ensures
        trim_of(trim_of(s)) == trim_of(s),
{
    let a = trim_start_ws(s);
    lemma_trim_start_shape(s);
    lemma_trim_end_shape(a);
    let t = trim_end_ws(a);
    let k = choose|k: int| 0 <= k <= a.len() && t == a.subrange(0, k);
    if t.len() > 0 {
        assert(t[0] == a[0]);
    }
    lemma_trim_identity(t);
}

/// Where the first line feed at or after `i` is, for a text whose line feed comes at `j`.
proof fn lemma_line_end_at(s: Seq<char>, i: int, j: int)
    requires
        0 <= i <= j < s.len(),
        s[j] == '\n',
        forall|k: int| i <= k < j ==> s[k] != '\n',
    ensures
        line_end(s, i) == j,
    decreases j - i,
{
    if i < j {
        lemma_line_end_at(s, i + 1, j);
    }
}

/// The sidecar written for bytes hashing to `h` reads back as the trimmed URL and `h`.
proof fn lemma_sidecar_lines(url: Seq<char>, h: Seq<char>)
    requires
        forall|i: int| 0 <= i < trim_of(url).len() ==> trim_of(url)[i] != '\n',
        forall|i: int| 0 <= i < h.len() ==> {
            let c = #[trigger] h[i];
            ('0' <= c && c <= '9') || ('a' <= c && c <= 'f')
        },
    ensures
        two_lines(url_txt_text(url, h)) == Some((trim_of(url), h)),
{
    let l = trim_of(url);
    let t = url_txt_text(url, h);
    assert(t =~= l + seq!['\n'] + h + seq!['\n']);
    let n = l.len() as int;
    assert(t[n] == '\n');
    assert forall|k: int| 0 <= k < n implies t[k] != '\n' by {
        assert(t[k] == l[k]);
    }
    lemma_line_end_at(t, 0, n);
    let m = n + 1 + h.len();
    assert(t[m] == '\n');
    assert forall|k: int| n + 1 <= k < m implies t[k] != '\n' by {
        assert(t[k] == h[k - n - 1]);
    }
    lemma_line_end_at(t, n + 1, m);
    assert(t.subrange(0, n) =~= l);
    assert(t.subrange(n + 1, m) =~= h);
    lemma_trim_start_shape(url);
    lemma_trim_end_shape(trim_start_ws(url));
    if l.len() > 0 {
        assert(!is_white_space(l.last()));
    }
    if h.len() > 0 {
        assert(h.last() != '\r');
    }
}

/// The file's download link, or empty.
pub open spec fn link_of(file: AddonFile) -> Seq<char> {
    match file.download_url {
        Some(u) => u.0@,
        None => seq![],
    }
}

/// Bytes fetched from a file's link whose server declared no hash validate once on disk beside
/// the sidecar written for them: the file counts as valid and its hash is reported.
pub proof fn lemma_round_trip_hash_sidecar(file: AddonFile, body: Seq<u8>, disk: DiskState, text: String)
    requires
        file.sha1_hash is None,
        file.download_url is Some,
        forall|i: int| 0 <= i < trim_of(link_of(file)).len() ==> trim_of(link_of(file))[i] != '\n',
        body.len() == file.file_length,
        text@ == url_txt_text(link_of(file), hex_lower(sha1_of(body))),
        disk.file_exist,
        disk.file_len == body.len(),
        disk.file_sha matches Some(s) && s@ == hex_lower(sha1_of(body)),
        disk.urltxt_exist,
        disk.urltxt_text == Some(text),
    ensures
        file_valid_spec(file, disk, false),
        urltxt_valid_spec(file, disk, false),
        resolved_hash(file, disk, false) == hex_lower(sha1_of(body)),
{
    let h = hex_lower(sha1_of(body));
    lemma_hex_chars(sha1_of(body));
    lemma_sidecar_lines(link_of(file), h);
    if h.len() > 0 {
        assert(!is_white_space(h[0]) && !is_white_space(h.last()));
    }
    lemma_trim_identity(h);
    lemma_trim_idempotent(link_of(file));
}

} // verus!
