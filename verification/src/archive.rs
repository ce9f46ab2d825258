//! Safe planning of archive extraction.
//!
//! An archive entry's path is attacker-controlled content, so it is read as
//! raw bytes, tokenized on `/` independently of the host filesystem's path
//! semantics, and every token must be a plain name: parent- and
//! current-directory tokens, root markers and prefix-like tokens (a
//! backslash or a drive-style colon) reject the whole archive.  The first
//! two tokens of every entry encode the archive's synthetic root and are
//! discarded before the remainder is joined under the destination.  Entry
//! kinds other than directory and regular file are presumed hostile and
//! fail the extraction outright.
//!
//! The unverified shell streams entries one at a time, asks [`plan_entry`]
//! for each, carries out the returned action, and stops at the first
//! violation, so a violating entry and everything after it are never
//! applied.

use vstd::prelude::*;
use crate::text::{parse_u64_dec, parseable_u64, parsed_dec_val};

verus! {

/// The byte value of `/`, the separator archive entry paths use.
pub const SEP_BYTE: u8 = 47;

/// The byte value of `.`.
pub const DOT_BYTE: u8 = 46;

/// The byte value of `\`, a separator on other platforms: treated as
/// prefix-like, never as a name byte.
pub const BACKSLASH_BYTE: u8 = 92;

/// The byte value of `:`, the drive-prefix marker on other platforms:
/// treated as prefix-like, never as a name byte.
pub const COLON_BYTE: u8 = 58;

/// What a single path token is.
#[derive(Clone, Copy, Debug, PartialEq, Eq, Structural)]
pub enum SegClass {
    /// A plain name: the only class extraction accepts.
    Normal,
    /// `.`
    CurrentDir,
    /// `..`
    ParentDir,
    /// Empty (a root marker or a doubled separator), or containing a
    /// backslash or a colon, which other platforms read as a separator or
    /// a drive prefix.
    RootOrPrefix,
}

/// Spec of [`classify_segment`].
pub open spec fn spec_classify_segment(seg: Seq<u8>) -> SegClass {
    if seg.len() == 0 {
        SegClass::RootOrPrefix
    } else if seg == seq![DOT_BYTE] {
        SegClass::CurrentDir
    } else if seg == seq![DOT_BYTE, DOT_BYTE] {
        SegClass::ParentDir
    } else if seg.contains(BACKSLASH_BYTE) || seg.contains(COLON_BYTE) {
        SegClass::RootOrPrefix
    } else {
        SegClass::Normal
    }
}

/// Classifies one path token, independently of the host filesystem's
/// path semantics.
pub fn classify_segment(seg: &[u8]) -> (r: SegClass)
    ensures
        r == spec_classify_segment(seg@),
{
    let n = seg.len();
    if n == 0 {
        return SegClass::RootOrPrefix;
    }
    if n == 1 && seg[0] == DOT_BYTE {
        proof {
            assert(seg@ =~= seq![DOT_BYTE]);
        }
        return SegClass::CurrentDir;
    }
    if n == 2 && seg[0] == DOT_BYTE && seg[1] == DOT_BYTE {
        proof {
            assert(seg@ =~= seq![DOT_BYTE, DOT_BYTE]);
        }
        return SegClass::ParentDir;
    }
    let mut i: usize = 0;
    while i < n
        invariant
            n == seg@.len(),
            0 <= i <= n,
            forall|j: int| 0 <= j < i ==> seg@[j] != BACKSLASH_BYTE && seg@[j] != COLON_BYTE,
        decreases n - i,
    {
        if seg[i] == BACKSLASH_BYTE || seg[i] == COLON_BYTE {
            return SegClass::RootOrPrefix;
        }
        i += 1;
    }
    proof {
        assert(!seg@.contains(BACKSLASH_BYTE));
        assert(!seg@.contains(COLON_BYTE));
    }
    SegClass::Normal
}

/// Spec of [`tokenize`]: splitting on every separator byte, as
/// `str::split` would; always at least one (possibly empty) token.
pub open spec fn spec_raw_split(s: Seq<u8>) -> Seq<Seq<u8>>
    decreases s.len(),
{
    if s.len() == 0 {
        seq![Seq::<u8>::empty()]
    } else if s.last() == SEP_BYTE {
        spec_raw_split(s.drop_last()).push(Seq::empty())
    } else {
        let r = spec_raw_split(s.drop_last());
        r.update(r.len() - 1, r.last().push(s.last()))
    }
}

/// Splits a byte string on every separator byte.
pub fn tokenize(s: &[u8]) -> (r: Vec<Vec<u8>>)
    ensures
        r.deep_view() == spec_raw_split(s@),
{
    let mut r: Vec<Vec<u8>> = Vec::new();
    r.push(Vec::new());
    proof {
        assert(r.deep_view() =~~= spec_raw_split(s@.take(0)));
    }
    let n = s.len();
    let mut i: usize = 0;
    while i < n
        invariant
            n == s@.len(),
            0 <= i <= n,
            r@.len() >= 1,
            r.deep_view() == spec_raw_split(s@.take(i as int)),
        decreases n - i,
    {
        proof {
            assert(s@.take(i + 1).drop_last() =~= s@.take(i as int));
            assert(s@.take(i + 1).last() == s@[i as int]);
        }
        if s[i] == SEP_BYTE {
            r.push(Vec::new());
            proof {
                assert(r.deep_view() =~~= spec_raw_split(s@.take(i + 1)));
            }
        } else {
            match r.pop() {
                Some(mut seg) => {
                    seg.push(s[i]);
                    r.push(seg);
                    proof {
                        let prev = spec_raw_split(s@.take(i as int));
                        assert(r.deep_view() =~~= prev.update(
                            prev.len() - 1,
                            prev.last().push(s@[i as int]),
                        ));
                    }
                },
                None => {
                    proof {
                        assert(false);
                    }
                },
            }
        }
        i += 1;
    }
    proof {
        assert(s@.take(n as int) =~= s@);
    }
    r
}

/// Spec of [`path_segments`]: the tokens of an entry path.  An empty path
/// has no tokens, and a single trailing separator (the directory-entry
/// convention) does not count as one; every other separator does.
pub open spec fn spec_path_tokens(path: Seq<u8>) -> Seq<Seq<u8>> {
    if path.len() == 0 {
        Seq::empty()
    } else if path.last() == SEP_BYTE {
        spec_raw_split(path.drop_last())
    } else {
        spec_raw_split(path)
    }
}

/// Tokenizes an archive entry's path bytes.
pub fn path_segments(path: &[u8]) -> (r: Vec<Vec<u8>>)
    ensures
        r.deep_view() == spec_path_tokens(path@),
{
    let n = path.len();
    if n == 0 {
        let r: Vec<Vec<u8>> = Vec::new();
        proof {
            assert(r.deep_view() =~= Seq::<Seq<u8>>::empty());
        }
        return r;
    }
    if path[n - 1] == SEP_BYTE {
        let trimmed = &path[0..n - 1];
        proof {
            assert(trimmed@ =~= path@.drop_last());
        }
        tokenize(trimmed)
    } else {
        tokenize(path)
    }
}

/// Every token of `segs` is a plain name.
pub open spec fn spec_segments_ok(segs: Seq<Seq<u8>>) -> bool {
    forall|i: int| 0 <= i < segs.len() ==> spec_classify_segment(#[trigger] segs[i]) is Normal
}

/// Joining tokens back into a `/`-separated relative path.
pub open spec fn spec_join(segs: Seq<Seq<u8>>) -> Seq<u8>
    decreases segs.len(),
{
    if segs.len() == 0 {
        Seq::empty()
    } else if segs.len() == 1 {
        segs[0]
    } else {
        spec_join(segs.drop_last()) + seq![SEP_BYTE] + segs.last()
    }
}

/// Joins the tokens from index `start` on into a relative path.
pub fn join_segments_from(segs: &Vec<Vec<u8>>, start: usize) -> (r: Vec<u8>)
    requires
        start <= segs@.len(),
    ensures
        r@ == spec_join(segs.deep_view().subrange(start as int, segs.deep_view().len() as int)),
{
    let n = segs.len();
    let mut r: Vec<u8> = Vec::new();
    let mut k: usize = start;
    proof {
        assert(r@ =~= spec_join(segs.deep_view().subrange(start as int, start as int)));
    }
    while k < n
        invariant
            start <= k <= n,
            n == segs@.len(),
            n == segs.deep_view().len(),
            r@ == spec_join(segs.deep_view().subrange(start as int, k as int)),
        decreases n - k,
    {
        proof {
            assert(segs.deep_view()[k as int] == segs@[k as int]@);
            assert(segs.deep_view().subrange(start as int, k + 1).drop_last() =~= segs.deep_view()
                .subrange(start as int, k as int));
            assert(segs.deep_view().subrange(start as int, k + 1).last() == segs.deep_view()[k as int]);
        }
        if k > start {
            r.push(SEP_BYTE);
        }
        r.extend_from_slice(segs[k].as_slice());
        proof {
            assert(r@ =~= spec_join(segs.deep_view().subrange(start as int, k + 1)));
        }
        k += 1;
    }
    r
}

/// The kind of an archive entry, as far as extraction distinguishes it.
#[derive(Clone, Copy, Debug, PartialEq, Eq, Structural)]
pub enum EntryKind {
    Directory,
    /// A regular file.
    Regular,
    /// Anything else: hard links, symbolic links, device or special files.
    Other,
}

/// Why an entry rejects the whole archive.
#[derive(Clone, Copy, Debug, PartialEq, Eq, Structural)]
pub enum ArchiveViolation {
    /// Some path token is not a plain name.
    BadPath,
    /// An entry kind other than directory or regular file.
    UnsupportedKind,
}

/// What the shell is to do for one accepted entry.  Paths are relative:
/// the shell joins them under the destination directory.
#[derive(Clone, Debug, PartialEq, Eq)]
pub enum EntryAction {
    /// The entry is the discarded archive root itself: nothing to do.
    Skip,
    /// Create this relative path as a directory.
    MakeDir(Vec<u8>),
    /// Extract the entry's contents to this relative path.
    WriteFile(Vec<u8>),
}

/// Model of an [`EntryAction`].
#[verifier::ext_equal]
pub enum ActionModel {
    Skip,
    MakeDir(Seq<u8>),
    WriteFile(Seq<u8>),
}

impl View for EntryAction {
    type V = ActionModel;

    open spec fn view(&self) -> ActionModel {
        match self {
            EntryAction::Skip => ActionModel::Skip,
            EntryAction::MakeDir(p) => ActionModel::MakeDir(p@),
            EntryAction::WriteFile(p) => ActionModel::WriteFile(p@),
        }
    }
}

/// Spec of [`plan_entry`]: tokens all plain, the two root tokens
/// discarded, an entry reduced to the root skipped before its kind is
/// examined, and only directories and regular files applied.
pub open spec fn spec_plan_entry(path: Seq<u8>, kind: EntryKind) -> Result<
    ActionModel,
    ArchiveViolation,
> {
    let segs = spec_path_tokens(path);
    if !spec_segments_ok(segs) {
        Err(ArchiveViolation::BadPath)
    } else if segs.len() <= 2 {
        Ok(ActionModel::Skip)
    } else {
        match kind {
            EntryKind::Directory => Ok(ActionModel::MakeDir(spec_join(segs.skip(2)))),
            EntryKind::Regular => Ok(ActionModel::WriteFile(spec_join(segs.skip(2)))),
            EntryKind::Other => Err(ArchiveViolation::UnsupportedKind),
        }
    }
}

/// Plans one archive entry: validates every path token, discards the two
/// synthetic root tokens, and maps the entry kind to an action.
pub fn plan_entry(path: &[u8], kind: EntryKind) -> (r: Result<EntryAction, ArchiveViolation>)
    ensures
        (r is Ok) == (spec_plan_entry(path@, kind) is Ok),
        r matches Ok(a) ==> a@ == spec_plan_entry(path@, kind)->Ok_0,
        r matches Err(v) ==> v == spec_plan_entry(path@, kind)->Err_0,
{
    let segs = path_segments(path);
    let n = segs.len();
    let mut i: usize = 0;
    while i < n
        invariant
            n == segs@.len(),
            0 <= i <= n,
            segs.deep_view() == spec_path_tokens(path@),
            forall|j: int|
                0 <= j < i ==> spec_classify_segment(#[trigger] segs.deep_view()[j]) is Normal,
        decreases n - i,
    {
        proof {
            assert(segs.deep_view()[i as int] == segs@[i as int]@);
        }
        match classify_segment(segs[i].as_slice()) {
            SegClass::Normal => {},
            _ => {
                return Err(ArchiveViolation::BadPath);
            },
        }
        i += 1;
    }
    if n <= 2 {
        return Ok(EntryAction::Skip);
    }
    proof {
        assert(segs.deep_view().skip(2) =~= segs.deep_view().subrange(
            2,
            segs.deep_view().len() as int,
        ));
    }
    match kind {
        EntryKind::Directory => Ok(EntryAction::MakeDir(join_segments_from(&segs, 2))),
        EntryKind::Regular => Ok(EntryAction::WriteFile(join_segments_from(&segs, 2))),
        EntryKind::Other => Err(ArchiveViolation::UnsupportedKind),
    }
}

proof fn lemma_raw_split_tokens_have_no_separator(s: Seq<u8>)
    ensures
        spec_raw_split(s).len() >= 1,
        forall|i: int|
            0 <= i < spec_raw_split(s).len() ==> !(#[trigger] spec_raw_split(s)[i]).contains(
                SEP_BYTE,
            ),
    decreases s.len(),
{
    if s.len() > 0 {
        lemma_raw_split_tokens_have_no_separator(s.drop_last());
        let prev = spec_raw_split(s.drop_last());
        if s.last() != SEP_BYTE {
            let cur = spec_raw_split(s);
            assert forall|i: int| 0 <= i < cur.len() implies !(#[trigger] cur[i]).contains(
                SEP_BYTE,
            ) by {
                if i == cur.len() - 1 {
                    let ext = prev.last().push(s.last());
                    assert(cur[i] == ext);
                    if ext.contains(SEP_BYTE) {
                        let j = choose|j: int| 0 <= j < ext.len() && ext[j] == SEP_BYTE;
                        assert(j < ext.len() - 1 ==> prev.last()[j] == SEP_BYTE);
                        assert(j == ext.len() - 1 ==> ext[j] == s.last());
                        assert(!prev.last().contains(SEP_BYTE));
                        assert(false);
                    }
                }
            }
        }
    }
}

proof fn lemma_raw_split_of_plain_token(s: Seq<u8>)
    requires
        !s.contains(SEP_BYTE),
    ensures
        spec_raw_split(s) == seq![s],
    decreases s.len(),
{
    if s.len() == 0 {
        assert(spec_raw_split(s) =~~= seq![s]);
    } else {
        assert(s.last() != SEP_BYTE) by {
            if s.last() == SEP_BYTE {
                assert(s[s.len() - 1] == SEP_BYTE);
                assert(s.contains(SEP_BYTE));
            }
        }
        assert(!s.drop_last().contains(SEP_BYTE)) by {
            if s.drop_last().contains(SEP_BYTE) {
                let j = choose|j: int|
                    0 <= j < s.drop_last().len() && s.drop_last()[j] == SEP_BYTE;
                assert(s[j] == SEP_BYTE);
                assert(s.contains(SEP_BYTE));
            }
        }
        lemma_raw_split_of_plain_token(s.drop_last());
        assert(s.drop_last().push(s.last()) =~= s);
        assert(spec_raw_split(s) =~~= seq![s]);
    }
}

proof fn lemma_raw_split_after_separator(x: Seq<u8>)
    ensures
        spec_raw_split(x + seq![SEP_BYTE]) == spec_raw_split(x).push(Seq::empty()),
{
    assert((x + seq![SEP_BYTE]).last() == SEP_BYTE);
    assert((x + seq![SEP_BYTE]).drop_last() =~= x);
}

proof fn lemma_raw_split_extends_last_token(x: Seq<u8>, y: Seq<u8>)
    requires
        !y.contains(SEP_BYTE),
    ensures
        spec_raw_split(x + y) == spec_raw_split(x).update(
            spec_raw_split(x).len() - 1,
            spec_raw_split(x).last() + y,
        ),
    decreases y.len(),
{
    lemma_raw_split_tokens_have_no_separator(x);
    let r = spec_raw_split(x);
    if y.len() == 0 {
        assert(x + y =~= x);
        assert(r.last() + y =~= r.last());
        assert(r.update(r.len() - 1, r.last() + y) =~~= r);
    } else {
        let y0 = y.drop_last();
        let b = y.last();
        assert(b != SEP_BYTE) by {
            if b == SEP_BYTE {
                assert(y[y.len() - 1] == SEP_BYTE);
                assert(y.contains(SEP_BYTE));
            }
        }
        assert(!y0.contains(SEP_BYTE)) by {
            if y0.contains(SEP_BYTE) {
                let j = choose|j: int| 0 <= j < y0.len() && y0[j] == SEP_BYTE;
                assert(y[j] == SEP_BYTE);
                assert(y.contains(SEP_BYTE));
            }
        }
        lemma_raw_split_extends_last_token(x, y0);
        assert((x + y).drop_last() =~= x + y0);
        assert((x + y).last() == b);
        let mid = spec_raw_split(x + y0);
        assert(mid.last() == r.last() + y0);
        assert((r.last() + y0).push(b) =~= r.last() + y);
        assert(spec_raw_split(x + y) =~~= r.update(r.len() - 1, r.last() + y));
    }
}

proof fn lemma_join_of_plain_tokens_shape(segs: Seq<Seq<u8>>)
    requires
        segs.len() > 0,
        forall|i: int| 0 <= i < segs.len() ==> (#[trigger] segs[i]).len() > 0,
    ensures
        spec_join(segs).len() > 0,
        spec_join(segs).last() == segs.last().last(),
    decreases segs.len(),
{
    if segs.len() > 1 {
        lemma_join_of_plain_tokens_shape(segs.drop_last());
    }
}

/// Joining plain tokens and tokenizing the result are inverse: the
/// relative path built from nonempty, separator-free tokens tokenizes
/// back to exactly those tokens.
pub proof fn lemma_join_tokens_round_trip(segs: Seq<Seq<u8>>)
    requires
        segs.len() > 0,
        forall|i: int| 0 <= i < segs.len() ==> (#[trigger] segs[i]).len() > 0,
        forall|i: int| 0 <= i < segs.len() ==> !(#[trigger] segs[i]).contains(SEP_BYTE),
    ensures
        spec_path_tokens(spec_join(segs)) == segs,
    decreases segs.len(),
{
    lemma_join_of_plain_tokens_shape(segs);
    assert(spec_join(segs).last() != SEP_BYTE) by {
        let t = segs.last();
        if t.last() == SEP_BYTE {
            assert(t[t.len() - 1] == SEP_BYTE);
            assert(t.contains(SEP_BYTE));
        }
    }
    if segs.len() == 1 {
        lemma_raw_split_of_plain_token(segs[0]);
        assert(spec_path_tokens(spec_join(segs)) =~~= segs);
    } else {
        let init = segs.drop_last();
        let lastseg = segs.last();
        lemma_join_tokens_round_trip(init);
        lemma_join_of_plain_tokens_shape(init);
        let joined_init = spec_join(init);
        assert(spec_join(segs) == joined_init + seq![SEP_BYTE] + lastseg);
        assert(joined_init.last() != SEP_BYTE) by {
            let t = init.last();
            if t.last() == SEP_BYTE {
                assert(t[t.len() - 1] == SEP_BYTE);
                assert(t.contains(SEP_BYTE));
            }
        }
        assert(spec_path_tokens(joined_init) == spec_raw_split(joined_init));
        lemma_raw_split_after_separator(joined_init);
        lemma_raw_split_extends_last_token(joined_init + seq![SEP_BYTE], lastseg);
        assert(joined_init + seq![SEP_BYTE] + lastseg =~= (joined_init + seq![SEP_BYTE])
            + lastseg);
        let with_sep = spec_raw_split(joined_init + seq![SEP_BYTE]);
        assert(with_sep == init.push(Seq::empty()));
        assert(with_sep.last() + lastseg =~= lastseg);
        assert(init.push(Seq::<u8>::empty()).update(init.len() as int, lastseg) =~~= segs);
        assert(spec_path_tokens(spec_join(segs)) =~~= segs);
    }
}

/// The action planned for an accepted entry cannot reach outside the
/// destination: its relative path tokenizes back to exactly the entry's
/// tokens after the two discarded root tokens, and every one of them is a
/// plain name — no parent, current, root or prefix token survives
/// planning, under any later re-reading of the path.
pub proof fn lemma_planned_path_stays_relative(path: Seq<u8>, kind: EntryKind, rel: Seq<u8>)
    requires
        spec_plan_entry(path, kind) == Ok::<ActionModel, ArchiveViolation>(
            ActionModel::MakeDir(rel),
        ) || spec_plan_entry(path, kind) == Ok::<ActionModel, ArchiveViolation>(
            ActionModel::WriteFile(rel),
        ),
    ensures
        spec_path_tokens(rel) == spec_path_tokens(path).skip(2),
        spec_segments_ok(spec_path_tokens(rel)),
{
    let segs = spec_path_tokens(path);
    let tail = segs.skip(2);
    assert(spec_segments_ok(segs));
    assert(segs.len() > 2);
    assert(rel == spec_join(tail));
    assert forall|i: int| 0 <= i < tail.len() implies (#[trigger] tail[i]).len() > 0 by {
        assert(tail[i] == segs[i + 2]);
        assert(spec_classify_segment(segs[i + 2]) is Normal);
    }
    assert forall|i: int| 0 <= i < tail.len() implies !(#[trigger] tail[i]).contains(
        SEP_BYTE,
    ) by {
        assert(tail[i] == segs[i + 2]);
        if path.len() == 0 {
        } else if path.last() == SEP_BYTE {
            lemma_raw_split_tokens_have_no_separator(path.drop_last());
        } else {
            lemma_raw_split_tokens_have_no_separator(path);
        }
    }
    lemma_join_tokens_round_trip(tail);
    assert forall|i: int| 0 <= i < tail.len() implies spec_classify_segment(
        #[trigger] tail[i],
    ) is Normal by {
        assert(tail[i] == segs[i + 2]);
    }
}

/// An archive entry as the planner sees it: raw path bytes and kind.
pub struct ArchiveEntry {
    pub path: Vec<u8>,
    pub kind: EntryKind,
}

/// Model of an [`ArchiveEntry`].
#[verifier::ext_equal]
pub struct EntryModel {
    pub path: Seq<u8>,
    pub kind: EntryKind,
}

impl View for ArchiveEntry {
    type V = EntryModel;

    open spec fn view(&self) -> EntryModel {
        EntryModel { path: self.path@, kind: self.kind }
    }
}

/// The outcome of walking an archive's entries in order: the actions of
/// the entries before the first violation, and that violation if any.
#[verifier::ext_equal]
pub struct ExtractModel {
    pub applied: Seq<ActionModel>,
    pub error: Option<ArchiveViolation>,
}

/// Walking entries in order, stopping at the first violation: entries
/// after a violation contribute nothing.
pub open spec fn spec_extract(entries: Seq<EntryModel>) -> ExtractModel
    decreases entries.len(),
{
    if entries.len() == 0 {
        ExtractModel { applied: Seq::empty(), error: None }
    } else {
        let prev = spec_extract(entries.drop_last());
        if prev.error is Some {
            prev
        } else {
            match spec_plan_entry(entries.last().path, entries.last().kind) {
                Ok(a) => ExtractModel { applied: prev.applied.push(a), error: None },
                Err(v) => ExtractModel { applied: prev.applied, error: Some(v) },
            }
        }
    }
}

proof fn lemma_extract_error_stable(entries: Seq<EntryModel>, k: int)
    requires
        0 <= k <= entries.len(),
        spec_extract(entries.take(k)).error is Some,
    ensures
        spec_extract(entries) == spec_extract(entries.take(k)),
    decreases entries.len() - k,
{
    if k == entries.len() {
        assert(entries.take(k) =~= entries);
    } else {
        assert(entries.take(k + 1).drop_last() =~= entries.take(k));
        lemma_extract_error_stable(entries, k + 1);
    }
}

proof fn lemma_extract_ok_prefix(entries: Seq<EntryModel>, k: int)
    requires
        0 <= k <= entries.len(),
        forall|j: int|
            0 <= j < k ==> spec_plan_entry(
                #[trigger] entries[j].path,
                entries[j].kind,
            ) is Ok,
    ensures
        spec_extract(entries.take(k)).error is None,
        spec_extract(entries.take(k)).applied.len() == k,
        forall|j: int|
            0 <= j < k ==> spec_extract(entries.take(k)).applied[j] == spec_plan_entry(
                #[trigger] entries[j].path,
                entries[j].kind,
            )->Ok_0,
    decreases k,
{
    if k > 0 {
        lemma_extract_ok_prefix(entries, k - 1);
        assert(entries.take(k).drop_last() =~= entries.take(k - 1));
        assert(entries.take(k).last() == entries[k - 1]);
    }
}

/// Entries are applied strictly in order: where entry `i` is the first
/// violating one, the walk fails with that entry's violation, every entry
/// before `i` keeps exactly its one planned action, and neither entry `i`
/// nor any later entry is ever applied.
pub proof fn lemma_extraction_stops_at_violation(entries: Seq<EntryModel>, i: int)
    requires
        0 <= i < entries.len(),
        spec_plan_entry(entries[i].path, entries[i].kind) is Err,
        forall|j: int|
            0 <= j < i ==> spec_plan_entry(
                #[trigger] entries[j].path,
                entries[j].kind,
            ) is Ok,
    ensures
        spec_extract(entries).error == Some(
            spec_plan_entry(entries[i].path, entries[i].kind)->Err_0,
        ),
        spec_extract(entries).applied.len() == i,
        forall|j: int|
            0 <= j < i ==> spec_extract(entries).applied[j] == spec_plan_entry(
                #[trigger] entries[j].path,
                entries[j].kind,
            )->Ok_0,
{
    lemma_extract_ok_prefix(entries, i);
    assert(entries.take(i + 1).drop_last() =~= entries.take(i));
    assert(entries.take(i + 1).last() == entries[i]);
    lemma_extract_error_stable(entries, i + 1);
}

/// A path with a non-normal token (parent, current, root or prefix)
/// aborts the whole extraction: the violating entry and all after it are
/// never applied, while the entries before it keep their actions.
pub proof fn lemma_bad_path_aborts_extraction(entries: Seq<EntryModel>, i: int)
    requires
        0 <= i < entries.len(),
        !spec_segments_ok(spec_path_tokens(entries[i].path)),
        forall|j: int|
            0 <= j < i ==> spec_plan_entry(
                #[trigger] entries[j].path,
                entries[j].kind,
            ) is Ok,
    ensures
        spec_extract(entries).error == Some(ArchiveViolation::BadPath),
        spec_extract(entries).applied.len() == i,
        forall|j: int|
            0 <= j < i ==> spec_extract(entries).applied[j] == spec_plan_entry(
                #[trigger] entries[j].path,
                entries[j].kind,
            )->Ok_0,
{
    lemma_extraction_stops_at_violation(entries, i);
}

/// An entry of any kind other than directory or regular file fails the
/// extraction immediately upon being reached.  (An entry whose whole path
/// is the discarded archive root is skipped before its kind is examined,
/// so such an entry is required to carry real content here.)
pub proof fn lemma_unsupported_kind_aborts_extraction(entries: Seq<EntryModel>, i: int)
    requires
        0 <= i < entries.len(),
        entries[i].kind is Other,
        spec_segments_ok(spec_path_tokens(entries[i].path)),
        spec_path_tokens(entries[i].path).len() > 2,
        forall|j: int|
            0 <= j < i ==> spec_plan_entry(
                #[trigger] entries[j].path,
                entries[j].kind,
            ) is Ok,
    ensures
        spec_extract(entries).error == Some(ArchiveViolation::UnsupportedKind),
        spec_extract(entries).applied.len() == i,
{
    lemma_extraction_stops_at_violation(entries, i);
}

/// The planned walk of a whole listed archive.
pub struct ExtractPlan {
    /// One action per accepted entry, in entry order.
    pub actions: Vec<EntryAction>,
    /// The first violation, if any: the entry at index `actions.len()`
    /// caused it, and no entry from there on is applied.
    pub error: Option<ArchiveViolation>,
}

impl View for ExtractPlan {
    type V = ExtractModel;

    open spec fn view(&self) -> ExtractModel {
        ExtractModel {
            applied: self.actions@.map_values(|a: EntryAction| a@),
            error: self.error,
        }
    }
}

/// Plans the extraction of a whole listed archive: entries in order, the
/// first violation aborting the walk.
pub fn plan_entries(entries: &Vec<ArchiveEntry>) -> (r: ExtractPlan)
    ensures
        r@ == spec_extract(entries@.map_values(|e: ArchiveEntry| e@)),
{
    let ghost models = entries@.map_values(|e: ArchiveEntry| e@);
    let mut actions: Vec<EntryAction> = Vec::new();
    let n = entries.len();
    let mut i: usize = 0;
    proof {
        assert(actions@.map_values(|a: EntryAction| a@) =~= spec_extract(
            models.take(0),
        ).applied);
    }
    while i < n
        invariant
            0 <= i <= n,
            n == entries@.len(),
            models == entries@.map_values(|e: ArchiveEntry| e@),
            models.len() == n,
            spec_extract(models.take(i as int)).error is None,
            spec_extract(models.take(i as int)).applied == actions@.map_values(
                |a: EntryAction| a@,
            ),
        decreases n - i,
    {
        proof {
            assert(models.take(i + 1).drop_last() =~= models.take(i as int));
            assert(models.take(i + 1).last() == entries@[i as int]@);
        }
        match plan_entry(entries[i].path.as_slice(), entries[i].kind) {
            Ok(a) => {
                actions.push(a);
                proof {
                    assert(actions@.map_values(|x: EntryAction| x@) =~= spec_extract(
                        models.take(i + 1),
                    ).applied);
                }
            },
            Err(v) => {
                proof {
                    lemma_extract_error_stable(models, i + 1);
                }
                return ExtractPlan { actions, error: Some(v) };
            },
        }
        i += 1;
    }
    proof {
        assert(models.take(n as int) =~= models);
    }
    ExtractPlan { actions, error: None }
}

/// How the download of one archive's URL was answered.
#[derive(Clone, Copy, Debug, PartialEq, Eq, Structural)]
pub enum FetchStatus {
    /// 200: the body is the archive.
    Success,
    /// 404: the component is missing on this channel/target.
    Missing,
    /// Any other status: a generic transport failure.
    Unexpected(u16),
}

/// Spec of [`classify_fetch_status`].
pub open spec fn spec_fetch_status(status: u16) -> FetchStatus {
    if status == 200 {
        FetchStatus::Success
    } else if status == 404 {
        FetchStatus::Missing
    } else {
        FetchStatus::Unexpected(status)
    }
}

/// Reads the status of the GET for one archive.
pub fn classify_fetch_status(status: u16) -> (r: FetchStatus)
    ensures
        r == spec_fetch_status(status),
{
    if status == 200 {
        FetchStatus::Success
    } else if status == 404 {
        FetchStatus::Missing
    } else {
        FetchStatus::Unexpected(status)
    }
}

/// Spec of [`content_length_hint`].
pub open spec fn spec_content_length_hint(header: Option<Seq<char>>) -> int {
    match header {
        Some(h) => if parseable_u64(h) {
            parsed_dec_val(h)
        } else {
            0
        },
        None => 0,
    }
}

/// The declared content length for the byte-progress sink: the parsed
/// header value, or 0 where the header is missing or unreadable.
pub fn content_length_hint(header: Option<&str>) -> (r: u64)
    ensures
        r == spec_content_length_hint(header.deep_view()),
{
    match header {
        Some(h) => match parse_u64_dec(h) {
            Some(v) => v,
            None => 0,
        },
        None => 0,
    }
}

} // verus!
