//! Directory entries and the order a listing presents them in.
//!
//! A listing names each entry with best-effort metadata and a MIME guess,
//! and is sorted: directories first, then files, each class ordered by the
//! case-folded name.

use vstd::prelude::*;
use vstd::multiset::Multiset;
use vstd::string::StrSliceExecFns;

verus! {

/// One entry of a directory listing.
#[derive(Clone, Debug)]
pub struct DirEntry {
    pub name: String,
    pub is_dir: bool,
    pub extension: Option<String>,
    pub mime: Option<String>,
    pub size: u64,
    pub created_at: Option<i64>,
    pub modified_at: Option<i64>,
    pub accessed_at: Option<i64>,
}

/// The view of an optional string.
pub open spec fn str_opt_view(o: Option<String>) -> Option<Seq<char>> {
    match o {
        Option::Some(s) => Option::Some(s@),
        Option::None => Option::None,
    }
}

/// What case folding turns a name into.
pub uninterp spec fn lower_of(s: Seq<char>) -> Seq<char>;

/// Relies on str::to_lowercase: the result depends on the characters of the
/// input alone, and an empty input stays empty.
#[verifier::external_body]
pub(crate) fn lowercase(s: &str) -> (r: String)
    ensures
        r@ == lower_of(s@),
        s@.len() == 0 ==> r@.len() == 0,
{
    s.to_lowercase()
}

/// What the MIME table knows for a file extension.
pub uninterp spec fn mime_of_ext(ext: Seq<char>) -> Option<Seq<char>>;

/// Relies on mime_guess::from_ext: the first guess for a file extension
/// depends on the extension alone.
#[verifier::external_body]
fn mime_for_ext(ext: &str) -> (r: Option<String>)
    ensures
        str_opt_view(r) == mime_of_ext(ext@),
{
    mime_guess::from_ext(ext).first_raw().map(|v| v.to_string())
}

/// Where the last dot splits a file name, when one exists.
pub open spec fn last_dot(name: Seq<char>) -> Option<int> {
    if exists|i: int| 0 <= i < name.len() && name[i] == '.' {
        Option::Some(choose|i: int|
            0 <= i < name.len() && name[i] == '.' && forall|j: int|
                i < j < name.len() ==> name[j] != '.')
    } else {
        Option::None
    }
}

/// The extension of a file name: what follows the last dot, unless the
/// only dot leads the name or there is none.
pub open spec fn extension_in(name: Seq<char>) -> Option<Seq<char>> {
    match last_dot(name) {
        Option::Some(p) => if p > 0 {
            Option::Some(name.subrange(p + 1, name.len() as int))
        } else {
            Option::None
        },
        Option::None => Option::None,
    }
}

/// The extension of a file name, as the listing reports it.
pub fn extension_of(name: &str) -> (r: Option<String>)
    ensures
        str_opt_view(r) == extension_in(name@),
{
    let len = name.unicode_len();
    let mut i: usize = len;
    while i > 0
        invariant
            i <= len,
            len == name@.len(),
            forall|j: int| i <= j < len ==> name@[j] != '.',
        decreases i,
    {
        i -= 1;
        if name.get_char(i) == '.' {
            proof {
                let k = i as int;
                assert(0 <= k < name@.len() && name@[k] == '.' && forall|j: int|
                    k < j < name@.len() ==> name@[j] != '.');
                let c = last_dot(name@)->Some_0;
                assert(0 <= c < name@.len() && name@[c] == '.' && forall|j: int|
                    c < j < name@.len() ==> name@[j] != '.');
                assert(c == k);
            }
            if i == 0 {
                return None;
            }
            return Some(name.substring_char(i + 1, len).to_owned());
        }
    }
    proof {
        assert(forall|j: int| 0 <= j < name@.len() ==> name@[j] != '.');
    }
    None
}

/// What the MIME column of an entry holds: nothing for a directory, the
/// table's guess for the extension otherwise.
pub open spec fn mime_in(name: Seq<char>, is_dir: bool) -> Option<Seq<char>> {
    if is_dir {
        Option::None
    } else {
        match extension_in(name) {
            Option::Some(e) => mime_of_ext(e),
            Option::None => Option::None,
        }
    }
}

/// Builds one listing entry from the plain metadata the directory walk
/// found for it.
pub fn make_dir_entry(
    name: String,
    is_dir: bool,
    size: u64,
    created_at: Option<i64>,
    modified_at: Option<i64>,
    accessed_at: Option<i64>,
) -> (e: DirEntry)
    ensures
        e.name == name,
        e.is_dir == is_dir,
        e.size == size,
        e.created_at == created_at,
        e.modified_at == modified_at,
        e.accessed_at == accessed_at,
        str_opt_view(e.extension) == extension_in(name@),
        str_opt_view(e.mime) == mime_in(name@, is_dir),
{
    let extension = extension_of(name.as_str());
    let mime = if is_dir {
        None
    } else {
        match &extension {
            Some(e) => mime_for_ext(e.as_str()),
            None => None,
        }
    };
    DirEntry { name, is_dir, extension, mime, size, created_at, modified_at, accessed_at }
}

/// Lexicographic order on character sequences, by scalar value.
pub open spec fn lex_le(a: Seq<char>, b: Seq<char>) -> bool
    decreases a.len(),
{
    if a.len() == 0 {
        true
    } else if b.len() == 0 {
        false
    } else if (a[0] as u32) < (b[0] as u32) {
        true
    } else if (a[0] as u32) > (b[0] as u32) {
        false
    } else {
        lex_le(a.drop_first(), b.drop_first())
    }
}

pub proof fn lemma_lex_le_total(a: Seq<char>, b: Seq<char>)
    ensures
        lex_le(a, b) || lex_le(b, a),
    decreases a.len(),
{
    if a.len() > 0 && b.len() > 0 && (a[0] as u32) == (b[0] as u32) {
        lemma_lex_le_total(a.drop_first(), b.drop_first());
    }
}

pub proof fn lemma_lex_le_trans(a: Seq<char>, b: Seq<char>, c: Seq<char>)
    requires
        lex_le(a, b),
        lex_le(b, c),
    ensures
        lex_le(a, c),
    decreases a.len(),
{
    if a.len() > 0 && b.len() > 0 && c.len() > 0 && (a[0] as u32) == (b[0] as u32) && (
    b[0] as u32) == (c[0] as u32) {
        lemma_lex_le_trans(a.drop_first(), b.drop_first(), c.drop_first());
    }
}

/// A pointwise-equal prefix does not decide the order: it is decided by
/// what follows.
proof fn lemma_lex_le_common_prefix(a: Seq<char>, b: Seq<char>, i: int)
    requires
        0 <= i <= a.len(),
        i <= b.len(),
        forall|j: int| 0 <= j < i ==> a[j] == b[j],
    ensures
        lex_le(a, b) == lex_le(a.skip(i), b.skip(i)),
    decreases i,
{
    if i == 0 {
        assert(a.skip(0) =~= a);
        assert(b.skip(0) =~= b);
    } else {
        assert(a.len() > 0 && b.len() > 0 && a[0] == b[0]);
        lemma_lex_le_common_prefix(a.drop_first(), b.drop_first(), i - 1);
        assert(a.drop_first().skip(i - 1) =~= a.skip(i));
        assert(b.drop_first().skip(i - 1) =~= b.skip(i));
    }
}

/// Lexicographic comparison of two strings.
#[verifier::loop_isolation(false)]
pub fn str_lex_le(a: &str, b: &str) -> (r: bool)
    ensures
        r == lex_le(a@, b@),
{
    let al = a.unicode_len();
    let bl = b.unicode_len();
    let mut i: usize = 0;
    while i < al && i < bl
        invariant
            i <= al,
            i <= bl,
            forall|j: int| 0 <= j < i ==> a@[j] == b@[j],
        decreases al - i,
    {
        let ca = a.get_char(i);
        let cb = b.get_char(i);
        if (ca as u32) < (cb as u32) {
            proof {
                lemma_lex_le_common_prefix(a@, b@, i as int);
                assert(a@.skip(i as int)[0] == ca && b@.skip(i as int)[0] == cb);
            }
            return true;
        }
        if (ca as u32) > (cb as u32) {
            proof {
                lemma_lex_le_common_prefix(a@, b@, i as int);
                assert(a@.skip(i as int)[0] == ca && b@.skip(i as int)[0] == cb);
            }
            return false;
        }
        proof {
            assert(ca == cb) by {
                assert((ca as u32) == (cb as u32));
                assert(ca as u32 as char == ca);
                assert(cb as u32 as char == cb);
            }
        }
        i += 1;
    }
    proof {
        lemma_lex_le_common_prefix(a@, b@, i as int);
        if i == al {
            assert(a@.skip(i as int).len() == 0);
        } else {
            assert(b@.skip(i as int).len() == 0);
            assert(a@.skip(i as int).len() > 0);
        }
    }
    al <= bl
}

/// The listing order: directories before files, then the case-folded name.
pub open spec fn entry_le(a: DirEntry, b: DirEntry) -> bool {
    (a.is_dir && !b.is_dir) || (a.is_dir == b.is_dir && lex_le(
        lower_of(a.name@),
        lower_of(b.name@),
    ))
}

/// The sequence is sorted in the listing order.
pub open spec fn entries_sorted(s: Seq<DirEntry>) -> bool {
    forall|i: int, j: int| 0 <= i < j < s.len() ==> entry_le(#[trigger] s[i], #[trigger] s[j])
}

pub proof fn lemma_entry_le_total(a: DirEntry, b: DirEntry)
    ensures
        entry_le(a, b) || entry_le(b, a),
{
    lemma_lex_le_total(lower_of(a.name@), lower_of(b.name@));
}

pub proof fn lemma_entry_le_trans(a: DirEntry, b: DirEntry, c: DirEntry)
    requires
        entry_le(a, b),
        entry_le(b, c),
    ensures
        entry_le(a, c),
{
    if a.is_dir == b.is_dir && b.is_dir == c.is_dir {
        lemma_lex_le_trans(lower_of(a.name@), lower_of(b.name@), lower_of(c.name@));
    }
}

/// An empty sequence has an empty multiset.
proof fn lemma_empty_to_multiset<A>()
    ensures
        Seq::<A>::empty().to_multiset() =~= Multiset::<A>::empty(),
{
    broadcast use vstd::seq_lib::group_to_multiset_ensures;
    broadcast use vstd::multiset::group_multiset_axioms;

    assert forall|y: A| Seq::<A>::empty().to_multiset().count(y) == 0 by {
        assert(!Seq::<A>::empty().contains(y));
    }
}

/// A keyed entry: the entry with its case-folded name, so that the sort
/// compares without folding again.
struct Keyed {
    entry: DirEntry,
    key: String,
}

/// The key really is the folded name.
spec fn keyed_ok(k: Keyed) -> bool {
    k.key@ == lower_of(k.entry.name@)
}

spec fn keyed_entries(s: Seq<Keyed>) -> Seq<DirEntry> {
    s.map_values(|k: Keyed| k.entry)
}

/// Compares two keyed entries in the listing order.
fn keyed_le(a: &Keyed, b: &Keyed) -> (r: bool)
    requires
        keyed_ok(*a),
        keyed_ok(*b),
    ensures
        r == entry_le(a.entry, b.entry),
{
    if a.entry.is_dir == b.entry.is_dir {
        str_lex_le(a.key.as_str(), b.key.as_str())
    } else {
        a.entry.is_dir
    }
}

/// Inserts a keyed entry into a sorted vector, keeping it sorted.
fn insert_sorted(v: &mut Vec<Keyed>, x: Keyed)
    requires
        forall|i: int| 0 <= i < old(v)@.len() ==> keyed_ok(#[trigger] old(v)@[i]),
        keyed_ok(x),
        entries_sorted(keyed_entries(old(v)@)),
    ensures
        forall|i: int| 0 <= i < final(v)@.len() ==> keyed_ok(#[trigger] final(v)@[i]),
        entries_sorted(keyed_entries(final(v)@)),
        keyed_entries(final(v)@).to_multiset() =~= keyed_entries(old(v)@).to_multiset().insert(
            x.entry,
        ),
{
    let mut p: usize = 0;
    while p < v.len()
        invariant
            v@ == old(v)@,
            keyed_ok(x),
            forall|i: int| 0 <= i < v@.len() ==> keyed_ok(#[trigger] v@[i]),
            p <= v@.len(),
            forall|i: int| 0 <= i < p ==> entry_le((#[trigger] v@[i]).entry, x.entry),
        ensures
            v@ == old(v)@,
            p <= v@.len(),
            forall|i: int| 0 <= i < p ==> entry_le((#[trigger] v@[i]).entry, x.entry),
            p < v@.len() ==> !entry_le(v@[p as int].entry, x.entry),
        decreases v@.len() - p,
    {
        if !keyed_le(&v[p], &x) {
            break;
        }
        p += 1;
    }
    proof {
        if p < v@.len() {
            assert(!entry_le(v@[p as int].entry, x.entry));
            lemma_entry_le_total(v@[p as int].entry, x.entry);
        }
    }
    let ghost pre = v@;
    v.insert(p, x);
    proof {
        assert(v@ == pre.insert(p as int, x));
        let es = keyed_entries(v@);
        let old_es = keyed_entries(pre);
        assert forall|i: int, j: int| 0 <= i < j < es.len() implies entry_le(es[i], es[j]) by {
            let pi = p as int;
            if j < pi {
                assert(es[i] == old_es[i] && es[j] == old_es[j]);
            } else if j == pi {
                assert(es[j] == x.entry);
                assert(es[i] == old_es[i]);
            } else {
                assert(es[j] == old_es[j - 1]);
                if i < pi {
                    assert(es[i] == old_es[i]);
                    if pi < old_es.len() {
                        assert(entry_le(old_es[i], old_es[pi]) || i == pi);
                    }
                    if !(entry_le(es[i], es[j])) {
                        assert(entry_le(x.entry, old_es[j - 1]) ==> entry_le(
                            old_es[i],
                            old_es[j - 1],
                        ) || i >= pi) by {
                            if i < pi && entry_le(old_es[i], x.entry) {
                                lemma_entry_le_trans(old_es[i], x.entry, old_es[j - 1]);
                            }
                        }
                        assert(entry_le(x.entry, old_es[j - 1])) by {
                            lemma_entry_le_trans(x.entry, old_es[pi], old_es[j - 1]);
                        }
                    }
                } else if i == pi {
                    assert(es[i] == x.entry);
                    assert(entry_le(x.entry, old_es[pi]));
                    if pi < j - 1 {
                        lemma_entry_le_trans(x.entry, old_es[pi], old_es[j - 1]);
                    }
                } else {
                    assert(es[i] == old_es[i - 1]);
                }
            }
        }
        broadcast use vstd::seq_lib::group_to_multiset_ensures;

        assert(keyed_entries(pre.insert(p as int, x)) =~= old_es.insert(p as int, x.entry));
        assert(old_es.insert(p as int, x.entry).to_multiset() == old_es.to_multiset().insert(
            x.entry,
        ));
    }
}

/// Sorts a listing: directories precede files, and within each class the
/// case-folded names ascend; the entries themselves are kept, each exactly
/// once.
#[verifier::loop_isolation(false)]
pub fn sort_dir_entries(entries: Vec<DirEntry>) -> (r: Vec<DirEntry>)
    ensures
        entries_sorted(r@),
        r@.to_multiset() =~= entries@.to_multiset(),
{
    broadcast use vstd::seq_lib::group_to_multiset_ensures;
    broadcast use vstd::multiset::group_multiset_axioms;
    broadcast use vstd::multiset::group_multiset_properties;

    let ghost orig = entries@;
    let mut rest = entries;
    let mut sorted_v: Vec<Keyed> = Vec::new();
    proof {
        lemma_empty_to_multiset::<DirEntry>();
        assert(keyed_entries(sorted_v@) =~= Seq::<DirEntry>::empty());
        assert(keyed_entries(sorted_v@).to_multiset().add(rest@.to_multiset())
            =~= orig.to_multiset());
    }
    while rest.len() > 0
        invariant
            forall|i: int| 0 <= i < sorted_v@.len() ==> keyed_ok(#[trigger] sorted_v@[i]),
            entries_sorted(keyed_entries(sorted_v@)),
            keyed_entries(sorted_v@).to_multiset().add(rest@.to_multiset()) =~= orig.to_multiset(),
        decreases rest@.len(),
    {
        let ghost rest_pre = rest@;
        let e = rest.remove(0);
        let key = lowercase(e.name.as_str());
        proof {
            assert(rest_pre[0] == e);
            assert(rest@ == rest_pre.remove(0));
            assert(rest_pre.remove(0).to_multiset() =~= rest_pre.to_multiset().remove(
                rest_pre[0],
            ));
            assert(rest_pre.contains(e));
            assert(rest_pre.to_multiset().count(e) > 0);
        }
        insert_sorted(&mut sorted_v, Keyed { entry: e, key });
    }
    let mut out: Vec<DirEntry> = Vec::new();
    let ghost all = sorted_v@;
    while sorted_v.len() > 0
        invariant
            out@.len() + sorted_v@.len() == all.len(),
            out@ =~= keyed_entries(all).subrange(0, out@.len() as int),
            sorted_v@ =~= all.skip(out@.len() as int),
        decreases sorted_v@.len(),
    {
        let ghost k = out@.len() as int;
        let e = sorted_v.remove(0);
        proof {
            assert(all.skip(k)[0] == all[k]);
            assert(sorted_v@ =~= all.skip(k + 1));
            assert(out@.push(e.entry) =~= keyed_entries(all).subrange(0, k + 1));
        }
        out.push(e.entry);
    }
    proof {
        assert(out@ =~= keyed_entries(all));
        assert(rest@.to_multiset() =~= Multiset::empty()) by {
            assert(rest@ =~= Seq::<DirEntry>::empty());
            lemma_empty_to_multiset::<DirEntry>();
        }
        assert(keyed_entries(all).to_multiset() =~= orig.to_multiset());
    }
    out
}

} // verus!
