//! The release/installation manager: normalising the remote release feed,
//! ordering releases by date, naming cached archives, deciding what an
//! install or uninstall may touch on disk, detecting the installed
//! release, and resolving the historically named settings files.

use vstd::prelude::*;

use crate::archive::ArchiveEntry;
use crate::cache::CacheView;
use crate::ini::{doc_lookup, set_spec, Ini};
use crate::text::{lex_le, lower_char, lower_seq, lower_exec, str_lex_le};

verus! {

/// One published release of the managed content.
#[derive(Clone)]
pub struct Release {
    pub tag: String,
    pub url: String,
    pub date: String,
    pub changelog: String,
}

/// Mathematical image of a `Release`.
#[verifier::ext_equal]
pub struct ReleaseV {
    pub tag: Seq<char>,
    pub url: Seq<char>,
    pub date: Seq<char>,
    pub changelog: Seq<char>,
}

impl View for Release {
    type V = ReleaseV;

    open spec fn view(&self) -> ReleaseV {
        ReleaseV { tag: self.tag@, url: self.url@, date: self.date@, changelog: self.changelog@ }
    }
}

/// One record of the remote release feed, already decoded from the wire:
/// the tag, the publish timestamp, the changelog body, and the download
/// location of each attached asset.
pub struct ReleaseRecord {
    pub tag_name: String,
    pub published_at: String,
    pub body: String,
    pub assets: Vec<String>,
}

/// Mathematical image of a `ReleaseRecord`.
#[verifier::ext_equal]
pub struct RecordV {
    pub tag_name: Seq<char>,
    pub published_at: Seq<char>,
    pub body: Seq<char>,
    pub assets: Seq<Seq<char>>,
}

impl View for ReleaseRecord {
    type V = RecordV;

    open spec fn view(&self) -> RecordV {
        RecordV {
            tag_name: self.tag_name@,
            published_at: self.published_at@,
            body: self.body@,
            assets: self.assets@.map_values(|a: String| a@),
        }
    }
}

/// Everything that can go wrong in the manager's own logic.
#[derive(Debug)]
pub enum ManageError {
    /// The remote feed broke its schema: a release with no assets.
    MalformedResponse,
    /// The installation target exists but is not a directory.
    NotADirectory,
    /// No installation directory was resolved.
    DirNotFound,
    /// No release is currently detected as installed.
    NoCurrentRelease,
    /// The release's archive is not in the cache.
    NotDownloaded,
    /// The archive holds no entry with the wanted extension.
    NoMatchingFile,
    /// No settings file exists on disk to write into.
    NoSettingsFile,
    /// The settings file exists but holds no password key.
    PasswordKeyMissing,
    /// The archive could not be opened or read; the text says why.
    ArchiveFailure(String),
}

// ---------------------------------------------------------------------------
// The release catalog
// ---------------------------------------------------------------------------
/// The release a feed record maps to: the first asset is the download.
pub open spec fn release_of_record(r: RecordV) -> ReleaseV {
    ReleaseV { tag: r.tag_name, url: r.assets[0], date: r.published_at, changelog: r.body }
}

/// The feed's schema obligation: every record carries at least one asset.
pub open spec fn records_ok(rs: Seq<RecordV>) -> bool {
    forall|i: int| 0 <= i < rs.len() ==> (#[trigger] rs[i]).assets.len() > 0
}

/// Normalise feed records into releases, in feed order. Fails with
/// `MalformedResponse` exactly when some record has no assets.
pub fn get_releases(records: &Vec<ReleaseRecord>) -> (r: Result<Vec<Release>, ManageError>)
    ensures
        records_ok(records@.map_values(|x: ReleaseRecord| x@)) <==> r is Ok,
        r matches Ok(v) ==> v@.map_values(|x: Release| x@) == records@.map_values(
            |x: ReleaseRecord| x@,
        ).map_values(|x: RecordV| release_of_record(x)),
        r is Err ==> r matches Err(ManageError::MalformedResponse),
{
    let ghost rs = records@.map_values(|x: ReleaseRecord| x@);
    let mut out: Vec<Release> = Vec::new();
    proof {
        assert(out@.map_values(|x: Release| x@) =~= rs.take(0).map_values(
            |x: RecordV| release_of_record(x),
        ));
    }
    let mut i: usize = 0;
    while i < records.len()
        invariant
            0 <= i <= records.len(),
            rs == records@.map_values(|x: ReleaseRecord| x@),
            forall|m: int| 0 <= m < i ==> (#[trigger] rs[m]).assets.len() > 0,
            out@.map_values(|x: Release| x@) == rs.take(i as int).map_values(
                |x: RecordV| release_of_record(x),
            ),
        decreases records.len() - i,
    {
        let rec = &records[i];
        if rec.assets.len() == 0 {
            proof {
                assert(rs[i as int].assets.len() == 0);
            }
            return Err(ManageError::MalformedResponse);
        }
        let ghost acc = out@.map_values(|x: Release| x@);
        let rel = Release {
            tag: rec.tag_name.clone(),
            url: rec.assets[0].clone(),
            date: rec.published_at.clone(),
            changelog: rec.body.clone(),
        };
        out.push(rel);
        proof {
            assert(rs[i as int].assets[0] == rec.assets@[0]@);
            assert(out@.map_values(|x: Release| x@) =~~= acc.push(release_of_record(
                rs[i as int],
            )));
            assert(acc.push(release_of_record(rs[i as int])) =~~= rs.take(i + 1).map_values(
                |x: RecordV| release_of_record(x),
            ));
        }
        i += 1;
    }
    proof {
        assert(rs.take(records.len() as int) =~= rs);
        assert(rs.take(records.len() as int).map_values(|x: RecordV| release_of_record(x))
            =~~= rs.map_values(|x: RecordV| release_of_record(x)));
    }
    Ok(out)
}

/// The newer tag the manager itself can upgrade to, if any: the newest
/// record's tag when it differs from the running version. Absence of a
/// version or an empty feed means no upgrade — never an error.
pub fn self_upgrade_version(current_version: Option<&str>, records: &Vec<ReleaseRecord>) -> (r:
    Option<String>)
    ensures
        current_version is None ==> r is None,
        records@.len() == 0 ==> r is None,
        current_version matches Some(cv) ==> records@.len() == 0 || ((r matches Some(t) && t@
            == records@[0].tag_name@ && records@[0].tag_name@ != cv@) || (r is None
            && records@[0].tag_name@ == cv@)),
{
    match current_version {
        None => None,
        Some(cv) => {
            if records.len() == 0 {
                None
            } else {
                let first = &records[0];
                if crate::text::str_eq(first.tag_name.as_str(), cv) {
                    None
                } else {
                    Some(first.tag_name.clone())
                }
            }
        },
    }
}

// ---------------------------------------------------------------------------
// Ordering releases, newest first
// ---------------------------------------------------------------------------
/// Insert a release into an already ordered run: it goes after every
/// release whose date is greater or equal, so releases with equal dates
/// keep their feed order (a stable sort).
pub open spec fn insert_desc(s: Seq<ReleaseV>, x: ReleaseV) -> Seq<ReleaseV>
    decreases s.len(),
{
    if s.len() == 0 {
        seq![x]
    } else if lex_le(x.date, s[0].date) {
        seq![s[0]] + insert_desc(s.drop_first(), x)
    } else {
        seq![x] + s
    }
}

/// The releases ordered by date, newest first, ties kept in feed order.
pub open spec fn sort_by_date_desc(s: Seq<ReleaseV>) -> Seq<ReleaseV>
    decreases s.len(),
{
    if s.len() == 0 {
        Seq::<ReleaseV>::empty()
    } else {
        insert_desc(sort_by_date_desc(s.drop_last()), s.last())
    }
}

/// Dates never increase along the sequence.
pub open spec fn sorted_desc(s: Seq<ReleaseV>) -> bool {
    forall|i: int| 0 <= i < s.len() - 1 ==> lex_le(#[trigger] s[i + 1].date, s[i].date)
}

/// Where `insert_desc` puts the new release: right before the first
/// position whose date is strictly smaller.
pub proof fn lemma_insert_desc_at(s: Seq<ReleaseV>, x: ReleaseV, p: int)
    requires
        0 <= p <= s.len(),
        forall|m: int| 0 <= m < p ==> lex_le(x.date, (#[trigger] s[m]).date),
        p < s.len() ==> !lex_le(x.date, s[p].date),
    ensures
        insert_desc(s, x) == s.take(p) + seq![x] + s.skip(p),
    decreases s.len(),
{
    if s.len() == 0 {
        assert(insert_desc(s, x) =~= s.take(p) + seq![x] + s.skip(p));
    } else if lex_le(x.date, s[0].date) {
        assert(p > 0);
        let d = s.drop_first();
        assert(forall|m: int| 0 <= m < p - 1 ==> lex_le(x.date, (#[trigger] d[m]).date)) by {
            assert(forall|m: int| 0 <= m < p - 1 ==> d[m] == s[m + 1]);
        }
        lemma_insert_desc_at(d, x, p - 1);
        assert(insert_desc(s, x) =~= s.take(p) + seq![x] + s.skip(p));
    } else {
        assert(p == 0);
        assert(insert_desc(s, x) =~= s.take(p) + seq![x] + s.skip(p));
    }
}

/// Inserting into an ordered run keeps it ordered.
pub proof fn lemma_insert_desc_sorted(s: Seq<ReleaseV>, x: ReleaseV)
    requires
        sorted_desc(s),
    ensures
        sorted_desc(insert_desc(s, x)),
    decreases s.len(),
{
    if s.len() == 0 {
    } else if lex_le(x.date, s[0].date) {
        let d = s.drop_first();
        assert(sorted_desc(d)) by {
            assert(forall|i: int| 0 <= i < d.len() - 1 ==> #[trigger] d[i] == s[i + 1] && d[i
                + 1] == s[i + 2]);
        }
        lemma_insert_desc_sorted(d, x);
        let r = insert_desc(s, x);
        let rd = insert_desc(d, x);
        assert(r == seq![s[0]] + rd);
        assert forall|i: int| 0 <= i < r.len() - 1 implies lex_le(
            (#[trigger] r[i + 1]).date,
            r[i].date,
        ) by {
            if i == 0 {
                if d.len() == 0 {
                    assert(rd[0] == x);
                } else if lex_le(x.date, d[0].date) {
                    assert(rd[0] == d[0]);
                    assert(lex_le(s[1].date, s[0].date));
                } else {
                    assert(rd[0] == x);
                }
            } else {
                assert(r[i] == rd[i - 1]);
                assert(r[i + 1] == rd[i]);
                assert(sorted_desc(rd));
                assert(lex_le(rd[i - 1 + 1].date, rd[i - 1].date));
            }
        }
    } else {
        crate::text::lemma_lex_le_total(x.date, s[0].date);
        let r = insert_desc(s, x);
        assert(r == seq![x] + s);
        assert forall|i: int| 0 <= i < r.len() - 1 implies lex_le(
            (#[trigger] r[i + 1]).date,
            r[i].date,
        ) by {
            if i == 0 {
                assert(lex_le(s[0].date, x.date));
            } else {
                assert(r[i] == s[i - 1]);
                assert(r[i + 1] == s[i]);
                assert(lex_le(s[i - 1 + 1].date, s[i - 1].date));
            }
        }
    }
}

/// The sorted sequence is ordered by date, newest first.
pub proof fn lemma_sort_by_date_desc_sorted(s: Seq<ReleaseV>)
    ensures
        sorted_desc(sort_by_date_desc(s)),
    decreases s.len(),
{
    if s.len() > 0 {
        lemma_sort_by_date_desc_sorted(s.drop_last());
        lemma_insert_desc_sorted(sort_by_date_desc(s.drop_last()), s.last());
    }
}

/// Sort releases by date, newest first, keeping the feed order of equal
/// dates (the exact result of `sort_by_date_desc`).
fn sort_releases(v: Vec<Release>) -> (r: Vec<Release>)
    ensures
        r@.map_values(|x: Release| x@) == sort_by_date_desc(v@.map_values(|x: Release| x@)),
{
    let ghost orig = v@.map_values(|x: Release| x@);
    let mut rest = v;
    let mut out: Vec<Release> = Vec::new();
    proof {
        assert(out@.map_values(|x: Release| x@) =~= sort_by_date_desc(orig.take(0)));
        assert(rest@.map_values(|x: Release| x@) =~= orig.skip(0));
    }
    let ghost mut k: int = 0;
    while rest.len() > 0
        invariant
            0 <= k <= orig.len(),
            rest@.map_values(|x: Release| x@) == orig.skip(k),
            out@.map_values(|x: Release| x@) == sort_by_date_desc(orig.take(k)),
        decreases rest.len(),
    {
        let ghost rest_pre = rest@;
        let x = rest.remove(0);
        proof {
            assert(rest_pre.len() > 0);
            assert(rest_pre.map_values(|x2: Release| x2@).len() == rest_pre.len());
            assert(orig.skip(k).len() == orig.len() - k);
            assert(k < orig.len());
            assert(x@ == rest_pre.map_values(|x2: Release| x2@)[0]);
            assert(orig.skip(k)[0] == orig[k]);
            assert(x@ == orig[k]);
            assert(rest@ =~= rest_pre.drop_first());
            assert(rest@.map_values(|x2: Release| x2@) =~= rest_pre.map_values(
                |x2: Release| x2@,
            ).drop_first());
            assert(rest@.map_values(|x2: Release| x2@) =~= orig.skip(k + 1));
        }
        let ghost sorted_pre = out@.map_values(|x2: Release| x2@);
        let mut p: usize = 0;
        while p < out.len() && str_lex_le(x.date.as_str(), out[p].date.as_str())
            invariant
                0 <= p <= out.len(),
                sorted_pre == out@.map_values(|x2: Release| x2@),
                forall|m: int|
                    0 <= m < p ==> lex_le(x@.date, (#[trigger] sorted_pre[m]).date),
            decreases out.len() - p,
        {
            proof {
                assert(sorted_pre[p as int] == out@[p as int]@);
            }
            p += 1;
        }
        proof {
            if (p as int) < sorted_pre.len() {
                assert(sorted_pre[p as int] == out@[p as int]@);
            }
            lemma_insert_desc_at(sorted_pre, x@, p as int);
        }
        let ghost xv = x@;
        out.insert(p, x);
        proof {
            assert(out@.map_values(|x2: Release| x2@) =~~= sorted_pre.take(p as int)
                + seq![xv] + sorted_pre.skip(p as int));
            assert(orig.take(k + 1).drop_last() =~= orig.take(k));
            assert(orig.take(k + 1).last() == orig[k]);
            assert(out@.map_values(|x2: Release| x2@) =~~= sort_by_date_desc(orig.take(k + 1)));
        }
        proof {
            k = k + 1;
        }
    }
    proof {
        assert(orig.take(k) =~= orig);
    }
    out
}

// ---------------------------------------------------------------------------
// Paths and the cache layout
// ---------------------------------------------------------------------------
/// Join a relative name onto a base path with a separator.
pub open spec fn join_path(base: Seq<char>, rel: Seq<char>) -> Seq<char> {
    base + seq!['/'] + rel
}

/// The root of the game installation, as a plain path string.
#[derive(Clone)]
pub struct EldenRingDir(pub String);

impl EldenRingDir {
    /// The directory's path.
    pub fn path(&self) -> (r: &str)
        ensures
            r@ == self.0@,
    {
        self.0.as_str()
    }

    /// The path as an owned string, for display.
    pub fn display(&self) -> (r: String)
        ensures
            r@ == self.0@,
    {
        self.0.clone()
    }

    /// A file inside the installation: the directory joined with a
    /// relative name.
    pub fn join(&self, rel: &str) -> (r: String)
        ensures
            r@ == join_path(self.0@, rel@),
    {
        let mut out = self.0.clone();
        out.append("/");
        out.append(rel);
        proof {
            reveal_strlit("/");
            assert(out@ =~= join_path(self.0@, rel@));
        }
        out
    }
}

impl Release {
    /// The archive's file name in the cache: the tag with a zip suffix.
    pub fn cache_file_name(&self) -> (r: String)
        ensures
            r@ == self.tag@ + ".zip"@,
    {
        let mut out = self.tag.clone();
        out.append(".zip");
        out
    }

    /// The staging file a download writes before the rename that
    /// publishes it: the cache file name with a partial suffix.
    pub fn staging_file_name(&self) -> (r: String)
        ensures
            r@ == self.tag@ + ".zip"@ + ".partial"@,
    {
        let mut out = self.tag.clone();
        out.append(".zip");
        out.append(".partial");
        out
    }

    /// Where the archive lives, relative to the cache's parent directory.
    pub fn cache_rel_path(&self) -> (r: String)
        ensures
            r@ == "release cache/"@ + self.tag@ + ".zip"@,
    {
        let mut out = String::from_str("release cache/");
        out.append(self.tag.as_str());
        out.append(".zip");
        out
    }

    /// Whether this release's archive is cached, given what is on disk:
    /// the canonical file alone decides, never a staging file.
    pub fn downloaded(&self, disk: &CacheView) -> (r: bool)
        ensures
            r == disk.canonical_is_file,
    {
        crate::cache::is_cached(disk)
    }
}

// ---------------------------------------------------------------------------
// The per-entry install policy
// ---------------------------------------------------------------------------
/// A `..` path component starting at index `i` of `name`.
pub open spec fn dotdot_at(name: Seq<char>, i: int) -> bool {
    &&& i == 0 || name[i - 1] == '/'
    &&& i + 2 <= name.len()
    &&& name[i] == '.'
    &&& name[i + 1] == '.'
    &&& i + 2 == name.len() || name[i + 2] == '/'
}

/// Whether the name has a `..` component anywhere.
pub open spec fn has_traversal(name: Seq<char>) -> bool {
    exists|i: int| 0 <= i && #[trigger] dotdot_at(name, i)
}

/// An entry name that stays inside the directory it is joined onto:
/// non-empty, relative, free of `..` components, backslashes and NUL.
pub open spec fn is_enclosed(name: Seq<char>) -> bool {
    &&& name.len() > 0
    &&& name[0] != '/'
    &&& crate::text::find_char(name, '\\') == name.len()
    &&& crate::text::find_char(name, '\0') == name.len()
    &&& !has_traversal(name)
}

/// Decide whether an entry name is safe to join onto the installation
/// directory; exactly `is_enclosed`.
pub fn is_enclosed_exec(name: &str) -> (r: bool)
    ensures
        r == is_enclosed(name@),
{
    let len = name.unicode_len();
    if len == 0 {
        return false;
    }
    if name.get_char(0) == '/' {
        return false;
    }
    if crate::text::find_char_exec(name, '\\') != len {
        proof {
            crate::text::lemma_find_char_bounds(name@, '\\');
        }
        return false;
    }
    if crate::text::find_char_exec(name, '\0') != len {
        proof {
            crate::text::lemma_find_char_bounds(name@, '\0');
        }
        return false;
    }
    let mut i: usize = 0;
    while i < len
        invariant
            0 <= i <= len,
            len == name@.len(),
            forall|m: int| 0 <= m < i ==> !dotdot_at(name@, m),
        decreases len - i,
    {
        let mut hit = i == 0;
        if !hit {
            hit = name.get_char(i - 1) == '/';
        }
        if hit && name.get_char(i) == '.' && i + 1 < len && name.get_char(i + 1) == '.' {
            if i + 2 == len || name.get_char(i + 2) == '/' {
                proof {
                    assert(dotdot_at(name@, i as int));
                }
                return false;
            }
        }
        proof {
            assert(!dotdot_at(name@, i as int));
        }
        i += 1;
    }
    proof {
        assert forall|m: int| !(0 <= m && dotdot_at(name@, m)) by {
            if 0 <= m < len {
                assert(!dotdot_at(name@, m));
            } else if m >= len {
                assert(!dotdot_at(name@, m));
            }
        }
    }
    true
}

/// Whether the name's last component ends in `.` followed by `ext`,
/// compared ASCII-case-insensitively. A name that is nothing but the
/// dotted suffix (a hidden file) has no extension.
pub open spec fn has_extension(name: Seq<char>, ext: Seq<char>) -> bool {
    &&& name.len() >= ext.len() + 2
    &&& lower_seq(name.subrange(name.len() - ext.len(), name.len() as int)) == lower_seq(ext)
    &&& name[name.len() - ext.len() - 1] == '.'
    &&& name[name.len() - ext.len() - 2] != '/'
}

/// Executable form of `has_extension`.
pub fn has_extension_exec(name: &str, ext: &str) -> (r: bool)
    ensures
        r == has_extension(name@, ext@),
{
    let nlen = name.unicode_len();
    let elen = ext.unicode_len();
    if nlen < elen || nlen - elen < 2 {
        return false;
    }
    if name.get_char(nlen - elen - 1) != '.' {
        return false;
    }
    if name.get_char(nlen - elen - 2) == '/' {
        return false;
    }
    let ghost tailv = name@.subrange(name@.len() - ext@.len(), name@.len() as int);
    let mut m: usize = 0;
    while m < elen
        invariant
            0 <= m <= elen,
            nlen == name@.len(),
            elen == ext@.len(),
            nlen >= elen + 2,
            tailv == name@.subrange(name@.len() - ext@.len(), name@.len() as int),
            forall|j: int| 0 <= j < m ==> lower_char(#[trigger] tailv[j]) == lower_char(ext@[j]),
        decreases elen - m,
    {
        let ca = lower_exec(name.get_char(nlen - elen + m));
        let cb = lower_exec(ext.get_char(m));
        if ca != cb {
            proof {
                assert(tailv[m as int] == name@[nlen - elen + m]);
                assert(lower_seq(tailv)[m as int] == lower_char(tailv[m as int]));
                assert(lower_seq(ext@)[m as int] == lower_char(ext@[m as int]));
            }
            return false;
        }
        proof {
            assert(tailv[m as int] == name@[nlen - elen + m]);
        }
        m += 1;
    }
    proof {
        assert(lower_seq(tailv) =~= lower_seq(ext@));
    }
    true
}

/// What the shared traversal does with one entry.
#[derive(Clone, Copy, Debug, PartialEq, Eq, Structural)]
pub enum EntryAction {
    Apply,
    Skip,
}

/// The protection policy: directory entries are never acted on, and a
/// settings file (`.ini`) already present on disk is never overwritten;
/// everything else is handed to the action.
pub open spec fn entry_action_spec(is_dir: bool, dest_is_file: bool, name: Seq<char>) -> EntryAction {
    if !is_dir && !(dest_is_file && has_extension(name, "ini"@)) {
        EntryAction::Apply
    } else {
        EntryAction::Skip
    }
}

/// Decide whether an entry is acted on or skipped; exactly
/// `entry_action_spec`.
pub fn entry_action(name: &str, is_dir: bool, dest_is_file: bool) -> (r: EntryAction)
    ensures
        r == entry_action_spec(is_dir, dest_is_file, name@),
{
    if !is_dir && !(dest_is_file && has_extension_exec(name, "ini")) {
        EntryAction::Apply
    } else {
        EntryAction::Skip
    }
}

/// The planned treatment of one archive entry: left alone, or applied at
/// a destination path inside the installation directory.
pub enum EntryDecision {
    Leave,
    Touch { dest: String },
}

/// Mathematical image of an `EntryDecision`.
#[verifier::ext_equal]
pub enum EntryDecisionV {
    Leave,
    Touch { dest: Seq<char> },
}

impl View for EntryDecision {
    type V = EntryDecisionV;

    open spec fn view(&self) -> EntryDecisionV {
        match self {
            EntryDecision::Leave => EntryDecisionV::Leave,
            EntryDecision::Touch { dest } => EntryDecisionV::Touch { dest: dest@ },
        }
    }
}

/// The decision for one entry: names that would escape the directory are
/// rejected outright, then the protection policy speaks; what survives is
/// applied at the joined destination.
pub open spec fn decision_spec(
    dir: Seq<char>,
    name: Seq<char>,
    is_dir: bool,
    dest_is_file: bool,
) -> EntryDecisionV {
    if !is_enclosed(name) {
        EntryDecisionV::Leave
    } else if entry_action_spec(is_dir, dest_is_file, name) is Apply {
        EntryDecisionV::Touch { dest: join_path(dir, name) }
    } else {
        EntryDecisionV::Leave
    }
}

/// Plan a whole install or uninstall pass: fails with `NotADirectory`
/// exactly when the installation target is not a directory, and otherwise
/// yields one decision per entry, in archive order.
pub fn install_actions(
    dir: &EldenRingDir,
    dir_is_dir: bool,
    entries: &Vec<ArchiveEntry>,
    dest_is_file: &Vec<bool>,
) -> (r: Result<Vec<EntryDecision>, ManageError>)
    requires
        entries@.len() == dest_is_file@.len(),
    ensures
        dir_is_dir <==> r is Ok,
        r is Err ==> r matches Err(ManageError::NotADirectory),
        r matches Ok(v) ==> v@.len() == entries@.len() && forall|m: int|
            0 <= m < v@.len() ==> (#[trigger] v@[m])@ == decision_spec(
                dir.0@,
                entries@[m].name@,
                entries@[m].is_dir,
                dest_is_file@[m],
            ),
{
    if !dir_is_dir {
        return Err(ManageError::NotADirectory);
    }
    let mut out: Vec<EntryDecision> = Vec::new();
    let mut i: usize = 0;
    while i < entries.len()
        invariant
            0 <= i <= entries.len(),
            entries@.len() == dest_is_file@.len(),
            out@.len() == i,
            forall|m: int|
                0 <= m < i ==> (#[trigger] out@[m])@ == decision_spec(
                    dir.0@,
                    entries@[m].name@,
                    entries@[m].is_dir,
                    dest_is_file@[m],
                ),
        decreases entries.len() - i,
    {
        let e = &entries[i];
        let d = if !is_enclosed_exec(e.name.as_str()) {
            EntryDecision::Leave
        } else {
            match entry_action(e.name.as_str(), e.is_dir, dest_is_file[i]) {
                EntryAction::Apply => EntryDecision::Touch { dest: dir.join(e.name.as_str()) },
                EntryAction::Skip => EntryDecision::Leave,
            }
        };
        out.push(d);
        i += 1;
    }
    Ok(out)
}

// ---------------------------------------------------------------------------
// Detecting the installed release
// ---------------------------------------------------------------------------
/// Byte-for-byte equality of two buffers.
fn bytes_eq(a: &Vec<u8>, b: &Vec<u8>) -> (r: bool)
    ensures
        r == (a@ == b@),
{
    if a.len() != b.len() {
        return false;
    }
    let mut i: usize = 0;
    while i < a.len()
        invariant
            0 <= i <= a@.len(),
            a@.len() == b@.len(),
            forall|j: int| 0 <= j < i ==> a@[j] == b@[j],
        decreases a.len() - i,
    {
        if a[i] != b[i] {
            return false;
        }
        i += 1;
    }
    proof {
        assert(a@ =~= b@);
    }
    true
}

/// Index of the first entry with this exact raw name, `-1` if none.
pub open spec fn entry_find(es: Seq<(Seq<char>, bool, Seq<u8>)>, name: Seq<char>) -> int
    decreases es.len(),
{
    if es.len() == 0 {
        -1
    } else if es[0].0 == name {
        0
    } else if entry_find(es.drop_first(), name) < 0 {
        -1
    } else {
        1 + entry_find(es.drop_first(), name)
    }
}

pub proof fn lemma_entry_find_at(es: Seq<(Seq<char>, bool, Seq<u8>)>, name: Seq<char>, i: int)
    requires
        0 <= i < es.len(),
        es[i].0 == name,
        forall|m: int| 0 <= m < i ==> (#[trigger] es[m]).0 != name,
    ensures
        entry_find(es, name) == i,
    decreases es.len(),
{
    if i > 0 {
        lemma_entry_find_at(es.drop_first(), name, i - 1);
    }
}

pub proof fn lemma_entry_find_none(es: Seq<(Seq<char>, bool, Seq<u8>)>, name: Seq<char>)
    requires
        forall|m: int| 0 <= m < es.len() ==> (#[trigger] es[m]).0 != name,
    ensures
        entry_find(es, name) == -1,
    decreases es.len(),
{
    if es.len() > 0 {
        lemma_entry_find_none(es.drop_first(), name);
    }
}

/// The contents of an optional archive, as its entry sequence.
pub open spec fn opt_entries_view(entries: Option<&Vec<ArchiveEntry>>) -> Option<
    Seq<(Seq<char>, bool, Seq<u8>)>,
> {
    match entries {
        Some(v) => Some(v@.map_values(|e: ArchiveEntry| e@)),
        None => None,
    }
}

/// The contents of an optional byte buffer.
pub open spec fn opt_bytes_view(d: Option<&Vec<u8>>) -> Option<Seq<u8>> {
    match d {
        Some(v) => Some(v@),
        None => None,
    }
}

/// Whether the archive entry named `path` matches the on-disk bytes:
/// unknown without the archive, without the disk file, or without such an
/// entry; otherwise a byte-for-byte comparison.
pub open spec fn file_installed_spec(
    entries: Option<Seq<(Seq<char>, bool, Seq<u8>)>>,
    path: Seq<char>,
    disk: Option<Seq<u8>>,
) -> Option<bool> {
    match entries {
        None => None,
        Some(es) => match disk {
            None => None,
            Some(d) => if entry_find(es, path) < 0 {
                None
            } else {
                Some(es[entry_find(es, path)].2 == d)
            },
        },
    }
}

/// The marker files whose on-disk match identifies an installed release:
/// the mod's binary under its older and its newer name.
pub open spec fn marker_old_path() -> Seq<char> {
    "SeamlessCoop/elden_ring_seamless_coop.dll"@
}

pub open spec fn marker_new_path() -> Seq<char> {
    "SeamlessCoop/ersc.dll"@
}

/// Whether this release is installed: any marker match decides yes, any
/// marker miss (with evidence) decides no, and with no evidence at all the
/// answer is unknown.
pub open spec fn installed_spec(
    entries: Option<Seq<(Seq<char>, bool, Seq<u8>)>>,
    disk_old: Option<Seq<u8>>,
    disk_new: Option<Seq<u8>>,
) -> Option<bool> {
    match (
        file_installed_spec(entries, marker_old_path(), disk_old),
        file_installed_spec(entries, marker_new_path(), disk_new),
    ) {
        (None, None) => None,
        (Some(true), _) => Some(true),
        (_, Some(true)) => Some(true),
        (_, _) => Some(false),
    }
}

/// Index of the first enclosed entry whose name carries this extension,
/// `-1` if none.
pub open spec fn ext_find(es: Seq<(Seq<char>, bool, Seq<u8>)>, ext: Seq<char>) -> int
    decreases es.len(),
{
    if es.len() == 0 {
        -1
    } else if is_enclosed(es[0].0) && has_extension(es[0].0, ext) {
        0
    } else if ext_find(es.drop_first(), ext) < 0 {
        -1
    } else {
        1 + ext_find(es.drop_first(), ext)
    }
}

pub proof fn lemma_ext_find_at(es: Seq<(Seq<char>, bool, Seq<u8>)>, ext: Seq<char>, i: int)
    requires
        0 <= i < es.len(),
        is_enclosed(es[i].0) && has_extension(es[i].0, ext),
        forall|m: int|
            0 <= m < i ==> !(is_enclosed((#[trigger] es[m]).0) && has_extension(es[m].0, ext)),
    ensures
        ext_find(es, ext) == i,
    decreases es.len(),
{
    if i > 0 {
        lemma_ext_find_at(es.drop_first(), ext, i - 1);
    }
}

pub proof fn lemma_ext_find_none(es: Seq<(Seq<char>, bool, Seq<u8>)>, ext: Seq<char>)
    requires
        forall|m: int|
            0 <= m < es.len() ==> !(is_enclosed((#[trigger] es[m]).0) && has_extension(
                es[m].0,
                ext,
            )),
    ensures
        ext_find(es, ext) == -1,
    decreases es.len(),
{
    if es.len() > 0 {
        lemma_ext_find_none(es.drop_first(), ext);
    }
}

impl Release {
    /// Compare the archive's entry named `entry_path` against the bytes
    /// read from its on-disk counterpart; exactly `file_installed_spec`.
    /// `entries` is the extracted archive, absent when not yet downloaded.
    pub fn file_installed(
        &self,
        entries: Option<&Vec<ArchiveEntry>>,
        entry_path: &str,
        disk: Option<&Vec<u8>>,
    ) -> (r: Option<bool>)
        ensures
            r == file_installed_spec(opt_entries_view(entries), entry_path@, opt_bytes_view(disk)),
    {
        let v = match entries {
            None => {
                return None;
            },
            Some(v) => v,
        };
        let d = match disk {
            None => {
                return None;
            },
            Some(d) => d,
        };
        let ghost es = v@.map_values(|e: ArchiveEntry| e@);
        let mut i: usize = 0;
        while i < v.len()
            invariant
                0 <= i <= v@.len(),
                es == v@.map_values(|e: ArchiveEntry| e@),
                opt_entries_view(entries) == Some(es),
                opt_bytes_view(disk) == Some(d@),
                forall|m: int| 0 <= m < i ==> (#[trigger] es[m]).0 != entry_path@,
            decreases v.len() - i,
        {
            if crate::text::str_eq(v[i].name.as_str(), entry_path) {
                let eq = bytes_eq(&v[i].data, d);
                proof {
                    lemma_entry_find_at(es, entry_path@, i as int);
                    assert(es[i as int] == v@[i as int]@);
                }
                return Some(eq);
            }
            proof {
                assert(es[i as int] == v@[i as int]@);
            }
            i += 1;
        }
        proof {
            lemma_entry_find_none(es, entry_path@);
        }
        None
    }

    /// Whether this release is currently installed, judged by its marker
    /// files; unknown (`None`) when the archive has not been downloaded,
    /// even if marker files exist on disk.
    pub fn installed(
        &self,
        entries: Option<&Vec<ArchiveEntry>>,
        disk_old: Option<&Vec<u8>>,
        disk_new: Option<&Vec<u8>>,
    ) -> (r: Option<bool>)
        ensures
            r == installed_spec(
                opt_entries_view(entries),
                opt_bytes_view(disk_old),
                opt_bytes_view(disk_new),
            ),
            entries is None ==> r is None,
    {
        let f1 = self.file_installed(entries, "SeamlessCoop/elden_ring_seamless_coop.dll", disk_old);
        let f2 = self.file_installed(entries, "SeamlessCoop/ersc.dll", disk_new);
        match (f1, f2) {
            (None, None) => None,
            (Some(true), _) => Some(true),
            (_, Some(true)) => Some(true),
            (_, _) => Some(false),
        }
    }

    /// The raw name of the first safe entry carrying this extension; fails
    /// with `NotDownloaded` without the archive and `NoMatchingFile` when
    /// no entry qualifies.
    pub fn path_for(&self, entries: Option<&Vec<ArchiveEntry>>, extension: &str) -> (r: Result<
        String,
        ManageError,
    >)
        ensures
            entries is None ==> r matches Err(ManageError::NotDownloaded),
            entries matches Some(v) ==> (ext_find(
                v@.map_values(|e: ArchiveEntry| e@),
                extension@,
            ) < 0 ==> r matches Err(ManageError::NoMatchingFile)),
            entries matches Some(v) ==> (ext_find(
                v@.map_values(|e: ArchiveEntry| e@),
                extension@,
            ) >= 0 ==> (r matches Ok(p) && p@ == v@.map_values(|e: ArchiveEntry| e@)[ext_find(
                v@.map_values(|e: ArchiveEntry| e@),
                extension@,
            )].0)),
    {
        let v = match entries {
            None => {
                return Err(ManageError::NotDownloaded);
            },
            Some(v) => v,
        };
        let ghost es = v@.map_values(|e: ArchiveEntry| e@);
        let mut i: usize = 0;
        while i < v.len()
            invariant
                0 <= i <= v@.len(),
                es == v@.map_values(|e: ArchiveEntry| e@),
                opt_entries_view(entries) == Some(es),
                forall|m: int|
                    0 <= m < i ==> !(is_enclosed((#[trigger] es[m]).0) && has_extension(
                        es[m].0,
                        extension@,
                    )),
            decreases v.len() - i,
        {
            let name = v[i].name.as_str();
            if is_enclosed_exec(name) && has_extension_exec(name, extension) {
                proof {
                    assert(es[i as int] == v@[i as int]@);
                    lemma_ext_find_at(es, extension@, i as int);
                }
                return Ok(String::from_str(name));
            }
            proof {
                assert(es[i as int] == v@[i as int]@);
            }
            i += 1;
        }
        proof {
            lemma_ext_find_none(es, extension@);
        }
        Err(ManageError::NoMatchingFile)
    }
}

// ---------------------------------------------------------------------------
// The manager
// ---------------------------------------------------------------------------
/// Index of the first verdict that is a definite yes, `-1` if none.
pub open spec fn first_installed(vs: Seq<Option<bool>>) -> int
    decreases vs.len(),
{
    if vs.len() == 0 {
        -1
    } else if vs[0] == Some(true) {
        0
    } else if first_installed(vs.drop_first()) < 0 {
        -1
    } else {
        1 + first_installed(vs.drop_first())
    }
}

pub proof fn lemma_first_installed_at(vs: Seq<Option<bool>>, i: int)
    requires
        0 <= i < vs.len(),
        vs[i] == Some(true),
        forall|m: int| 0 <= m < i ==> vs[m] != Some(true),
    ensures
        first_installed(vs) == i,
    decreases vs.len(),
{
    if i > 0 {
        lemma_first_installed_at(vs.drop_first(), i - 1);
    }
}

pub proof fn lemma_first_installed_none(vs: Seq<Option<bool>>)
    requires
        forall|m: int| 0 <= m < vs.len() ==> vs[m] != Some(true),
    ensures
        first_installed(vs) == -1,
    decreases vs.len(),
{
    if vs.len() > 0 {
        lemma_first_installed_none(vs.drop_first());
    }
}

/// One settings file the password is kept in: its path and the section
/// name historically used inside that file.
pub struct SettingsTarget {
    pub path: String,
    pub section: String,
}

impl View for SettingsTarget {
    type V = (Seq<char>, Seq<char>);

    open spec fn view(&self) -> (Seq<char>, Seq<char>) {
        (self.path@, self.section@)
    }
}

/// The historically used settings files, oldest first, relative to the
/// installation directory.
pub open spec fn candidate_file(i: int) -> Seq<char> {
    if i == 0 {
        "SeamlessCoop/cooppassword.ini"@
    } else if i == 1 {
        "SeamlessCoop/seamlesscoopsettings.ini"@
    } else {
        "SeamlessCoop/ersc_settings.ini"@
    }
}

/// The section the password lives in for each candidate file.
pub open spec fn candidate_section(i: int) -> Seq<char> {
    if i == 0 {
        "SETTINGS"@
    } else {
        "PASSWORD"@
    }
}

/// The candidate settings files, oldest first, as relative paths with
/// their section names.
pub fn settings_candidates() -> (r: Vec<SettingsTarget>)
    ensures
        r@.len() == 3,
        forall|i: int| 0 <= i < 3 ==> (#[trigger] r@[i])@ == (candidate_file(i), candidate_section(i)),
{
    let mut out: Vec<SettingsTarget> = Vec::new();
    out.push(
        SettingsTarget {
            path: String::from_str("SeamlessCoop/cooppassword.ini"),
            section: String::from_str("SETTINGS"),
        },
    );
    out.push(
        SettingsTarget {
            path: String::from_str("SeamlessCoop/seamlesscoopsettings.ini"),
            section: String::from_str("PASSWORD"),
        },
    );
    out.push(
        SettingsTarget {
            path: String::from_str("SeamlessCoop/ersc_settings.ini"),
            section: String::from_str("PASSWORD"),
        },
    );
    out
}

/// The files a password write must touch: every candidate that exists on
/// disk, oldest first, as absolute paths with their section names.
pub open spec fn password_targets(dir: Seq<char>, exists: Seq<bool>) -> Seq<(Seq<char>, Seq<char>)> {
    (if exists[0] {
        seq![(join_path(dir, candidate_file(0)), candidate_section(0))]
    } else {
        Seq::<(Seq<char>, Seq<char>)>::empty()
    }) + (if exists[1] {
        seq![(join_path(dir, candidate_file(1)), candidate_section(1))]
    } else {
        Seq::<(Seq<char>, Seq<char>)>::empty()
    }) + (if exists[2] {
        seq![(join_path(dir, candidate_file(2)), candidate_section(2))]
    } else {
        Seq::<(Seq<char>, Seq<char>)>::empty()
    })
}

/// The aggregate the application works with: the resolved installation
/// directory, the release catalog, and the release detected as installed.
#[derive(Clone)]
pub struct EldenRingManager {
    pub dir: Option<EldenRingDir>,
    pub releases: Vec<Release>,
    pub current: Option<Release>,
}

impl EldenRingManager {
    /// A fresh manager around an already resolved installation directory
    /// (absent when autodetection found none).
    pub fn new(dir: Option<EldenRingDir>) -> (r: EldenRingManager)
        ensures
            r.dir == dir,
            r.releases@.len() == 0,
            r.current is None,
    {
        EldenRingManager { dir, releases: Vec::new(), current: None }
    }

    /// Whether an installation directory was resolved.
    pub fn found_dir(&self) -> (r: bool)
        ensures
            r == (self.dir is Some),
    {
        self.dir.is_some()
    }

    /// Take in freshly fetched feed records: normalise them and hold them
    /// ordered by date, newest first, ties in feed order.
    pub fn fetch_releases(&mut self, records: &Vec<ReleaseRecord>) -> (r: Result<
        (),
        ManageError,
    >)
        ensures
            final (self).dir == old(self).dir,
            final (self).current == old(self).current,
            records_ok(records@.map_values(|x: ReleaseRecord| x@)) <==> r is Ok,
            r is Ok ==> final (self).releases@.map_values(|x: Release| x@) == sort_by_date_desc(
                records@.map_values(|x: ReleaseRecord| x@).map_values(
                    |x: RecordV| release_of_record(x),
                ),
            ),
            r is Err ==> (r matches Err(ManageError::MalformedResponse)
                && final (self).releases == old(self).releases),
    {
        match get_releases(records) {
            Ok(v) => {
                self.releases = sort_releases(v);
                Ok(())
            },
            Err(e) => Err(e),
        }
    }

    /// Record which release the verdicts say is installed: the first
    /// definite yes wins; without one (or without a directory) the current
    /// release is left as it was.
    pub fn detect_current_release(&mut self, verdicts: &Vec<Option<bool>>) -> (r: Option<usize>)
        requires
            verdicts@.len() == old(self).releases@.len(),
        ensures
            final (self).dir == old(self).dir,
            final (self).releases == old(self).releases,
            old(self).dir is None ==> final (self).current == old(self).current && r is None,
            old(self).dir is Some && first_installed(verdicts@) < 0 ==> final (self).current
                == old(self).current && r is None,
            old(self).dir is Some && first_installed(verdicts@) >= 0 ==> r == Some(
                first_installed(verdicts@) as usize,
            ) && final (self).current == Some(old(self).releases@[first_installed(verdicts@)]),
    {
        if self.dir.is_none() {
            return None;
        }
        let mut i: usize = 0;
        while i < verdicts.len()
            invariant
                *self == *old(self),
                old(self).dir is Some,
                0 <= i <= verdicts@.len(),
                verdicts@.len() == old(self).releases@.len(),
                forall|m: int| 0 <= m < i ==> verdicts@[m] != Some(true),
            decreases verdicts.len() - i,
        {
            let hit = match verdicts[i] {
                Some(b) => b,
                None => false,
            };
            if hit {
                proof {
                    lemma_first_installed_at(verdicts@, i as int);
                }
                let c = Release {
                    tag: self.releases[i].tag.clone(),
                    url: self.releases[i].url.clone(),
                    date: self.releases[i].date.clone(),
                    changelog: self.releases[i].changelog.clone(),
                };
                self.current = Some(c);
                return Some(i);
            }
            i += 1;
        }
        proof {
            lemma_first_installed_none(verdicts@);
        }
        None
    }

    /// The directory and current release, when both are known; the errors
    /// name what is missing.
    pub fn ok(&self) -> (r: Result<(&EldenRingDir, &Release), ManageError>)
        ensures
            self.dir is None ==> r matches Err(ManageError::DirNotFound),
            self.dir is Some && self.current is None ==> r matches Err(
                ManageError::NoCurrentRelease,
            ),
            self.dir matches Some(d) ==> (self.current matches Some(c) ==> (r matches Ok(p)
                && *p.0 == d && *p.1 == c)),
    {
        match &self.dir {
            None => Err(ManageError::DirNotFound),
            Some(d) => match &self.current {
                None => Err(ManageError::NoCurrentRelease),
                Some(c) => Ok((d, c)),
            },
        }
    }

    /// The canonical settings file's absolute path, by existence
    /// precedence: the newest-named candidate that exists on disk wins.
    /// `exists` answers, oldest first, whether each candidate file exists;
    /// the errors name what is missing.
    pub fn get_ini_path(&self, exists: &Vec<bool>) -> (r: Result<String, ManageError>)
        requires
            exists@.len() == 3,
        ensures
            self.dir is None ==> r matches Err(ManageError::DirNotFound),
            self.dir is Some && !exists@[0] && !exists@[1] && !exists@[2] ==> r matches Err(
                ManageError::NoSettingsFile,
            ),
            self.dir matches Some(d) ==> (exists@[2] ==> (r matches Ok(p) && p@ == join_path(
                d.0@,
                candidate_file(2),
            ))),
            self.dir matches Some(d) ==> (!exists@[2] && exists@[1] ==> (r matches Ok(p) && p@
                == join_path(d.0@, candidate_file(1)))),
            self.dir matches Some(d) ==> (!exists@[2] && !exists@[1] && exists@[0] ==> (
            r matches Ok(p) && p@ == join_path(d.0@, candidate_file(0)))),
    {
        if self.dir.is_none() {
            return Err(ManageError::DirNotFound);
        }
        match self.locate_settings_file(exists) {
            Some(p) => Ok(p),
            None => Err(ManageError::NoSettingsFile),
        }
    }

    /// The absolute path of the current release's launcher: the first safe
    /// `exe` entry of its archive, joined onto the installation directory.
    pub fn launcher_path(&self, entries: Option<&Vec<ArchiveEntry>>) -> (r: Result<
        String,
        ManageError,
    >)
        ensures
            self.dir is None ==> r matches Err(ManageError::DirNotFound),
            self.dir is Some && self.current is None ==> r matches Err(
                ManageError::NoCurrentRelease,
            ),
            self.dir is Some && self.current is Some && entries is None ==> r matches Err(
                ManageError::NotDownloaded,
            ),
            self.dir matches Some(d) ==> (entries matches Some(v) ==> (self.current is Some
                ==> (if ext_find(v@.map_values(|e: ArchiveEntry| e@), "exe"@) < 0 {
                r matches Err(ManageError::NoMatchingFile)
            } else {
                (r matches Ok(p) && p@ == join_path(
                    d.0@,
                    v@.map_values(|e: ArchiveEntry| e@)[ext_find(
                        v@.map_values(|e: ArchiveEntry| e@),
                        "exe"@,
                    )].0,
                ))
            }))),
    {
        let (d, c) = match self.ok() {
            Ok(p) => p,
            Err(e) => {
                return Err(e);
            },
        };
        match c.path_for(entries, "exe") {
            Ok(rel) => Ok(d.join(rel.as_str())),
            Err(e) => Err(e),
        }
    }

    /// Read the shared password out of a settings document: the newer
    /// section name is tried first, then the older one; a document with
    /// neither has no password key.
    pub fn get_password(&self, ini: &Ini) -> (r: Result<String, ManageError>)
        ensures
            doc_lookup(ini@, "PASSWORD"@, "cooppassword"@) matches Some(v) ==> (r matches Ok(
                p,
            ) && p@ == v),
            doc_lookup(ini@, "PASSWORD"@, "cooppassword"@) is None ==> (doc_lookup(
                ini@,
                "SETTINGS"@,
                "cooppassword"@,
            ) matches Some(v) ==> (r matches Ok(p) && p@ == v)),
            doc_lookup(ini@, "PASSWORD"@, "cooppassword"@) is None && doc_lookup(
                ini@,
                "SETTINGS"@,
                "cooppassword"@,
            ) is None ==> r matches Err(ManageError::PasswordKeyMissing),
    {
        match ini.get("PASSWORD", "cooppassword") {
            Some(v) => Ok(String::from_str(v)),
            None => match ini.get("SETTINGS", "cooppassword") {
                Some(v) => Ok(String::from_str(v)),
                None => Err(ManageError::PasswordKeyMissing),
            },
        }
    }

    /// The canonical settings file, by existence precedence: the newest
    /// named candidate that exists on disk wins. `exists` answers, oldest
    /// first, whether each candidate file exists.
    pub fn locate_settings_file(&self, exists: &Vec<bool>) -> (r: Option<String>)
        requires
            exists@.len() == 3,
        ensures
            self.dir is None ==> r is None,
            self.dir matches Some(d) ==> (exists@[2] ==> (r matches Some(p) && p@ == join_path(
                d.0@,
                candidate_file(2),
            ))),
            self.dir matches Some(d) ==> (!exists@[2] && exists@[1] ==> (r matches Some(p)
                && p@ == join_path(d.0@, candidate_file(1)))),
            self.dir matches Some(d) ==> (!exists@[2] && !exists@[1] && exists@[0] ==> (
            r matches Some(p) && p@ == join_path(d.0@, candidate_file(0)))),
            self.dir is Some && !exists@[0] && !exists@[1] && !exists@[2] ==> r is None,
    {
        let d = match &self.dir {
            None => {
                return None;
            },
            Some(d) => d,
        };
        if exists[2] {
            Some(d.join("SeamlessCoop/ersc_settings.ini"))
        } else if exists[1] {
            Some(d.join("SeamlessCoop/seamlesscoopsettings.ini"))
        } else if exists[0] {
            Some(d.join("SeamlessCoop/cooppassword.ini"))
        } else {
            None
        }
    }

    /// Plan a password write: every candidate settings file that exists on
    /// disk is written, oldest first, each in its own historical section —
    /// a broadcast that keeps mixed old and new versions in sync. With no
    /// directory or no settings file at all, the matching error.
    pub fn set_password(&self, exists: &Vec<bool>) -> (r: Result<Vec<SettingsTarget>, ManageError>)
        requires
            exists@.len() == 3,
        ensures
            self.dir is None ==> r matches Err(ManageError::DirNotFound),
            self.dir is Some && !exists@[0] && !exists@[1] && !exists@[2] ==> r matches Err(
                ManageError::NoSettingsFile,
            ),
            self.dir matches Some(d) ==> ((exists@[0] || exists@[1] || exists@[2]) ==> (
            r matches Ok(v) && v@.map_values(|t: SettingsTarget| t@) == password_targets(
                d.0@,
                exists@,
            ))),
    {
        let d = match &self.dir {
            None => {
                return Err(ManageError::DirNotFound);
            },
            Some(d) => d,
        };
        let mut out: Vec<SettingsTarget> = Vec::new();
        if exists[0] {
            out.push(
                SettingsTarget {
                    path: d.join("SeamlessCoop/cooppassword.ini"),
                    section: String::from_str("SETTINGS"),
                },
            );
        }
        if exists[1] {
            out.push(
                SettingsTarget {
                    path: d.join("SeamlessCoop/seamlesscoopsettings.ini"),
                    section: String::from_str("PASSWORD"),
                },
            );
        }
        if exists[2] {
            out.push(
                SettingsTarget {
                    path: d.join("SeamlessCoop/ersc_settings.ini"),
                    section: String::from_str("PASSWORD"),
                },
            );
        }
        if out.len() == 0 {
            return Err(ManageError::NoSettingsFile);
        }
        proof {
            assert(out@.map_values(|t: SettingsTarget| t@) =~~= password_targets(
                d.0@,
                exists@,
            ));
        }
        Ok(out)
    }

    /// The tag shown for a release row; empty for an index out of range.
    pub fn version_at_index(&self, index: usize) -> (r: String)
        ensures
            index < self.releases@.len() ==> r@ == self.releases@[index as int].tag@,
            index >= self.releases@.len() ==> r@ == Seq::<char>::empty(),
    {
        if index < self.releases.len() {
            self.releases[index].tag.clone()
        } else {
            String::new()
        }
    }

    /// The changelog shown for a release row; empty for an index out of
    /// range.
    pub fn changelog_at_index(&self, index: usize) -> (r: String)
        ensures
            index < self.releases@.len() ==> r@ == self.releases@[index as int].changelog@,
            index >= self.releases@.len() ==> r@ == Seq::<char>::empty(),
    {
        if index < self.releases.len() {
            self.releases[index].changelog.clone()
        } else {
            String::new()
        }
    }

    /// Write the password into one settings document, under the section
    /// that file historically uses.
    pub fn set_password_for(&self, password: &str, ini: &mut Ini, section: &str)
        ensures
            final (ini)@ == set_spec(old(ini)@, section@, "cooppassword"@, password@),
    {
        ini.set(section, "cooppassword", password);
    }
}

} // verus!
