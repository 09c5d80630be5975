//! Content digest of a media source folder.
//!
//! The digest covers each entry's relative path and, for files, its length and
//! bytes. Paths are sorted so the result is deterministic.

use vstd::bytes::{spec_u64_from_le_bytes, spec_u64_to_le_bytes, u64_to_le_bytes};
use vstd::prelude::*;
use vstd::utf8::{encode_scalar, encode_utf8};

use crate::encode::{sha256, sha256_of};
use crate::text::{
    lemma_text_le_antisym, lemma_text_le_total, lemma_text_le_trans, str_le, text_le,
};

verus! {

/// One entry of a folder: its path below the folder (always `/`-separated) and
/// what it holds, unless it is a folder itself.
#[derive(Debug)]
pub struct Entry {
    pub rel: String,
    pub content: Option<Vec<u8>>,
}

/// The contents of an [`Entry`].
pub ghost struct EntryView {
    pub rel: Seq<char>,
    pub content: Option<Seq<u8>>,
}

impl DeepView for Entry {
    type V = EntryView;

    open spec fn deep_view(&self) -> EntryView {
        EntryView {
            rel: self.rel@,
            content: match self.content {
                Some(c) => Some(c@),
                None => None,
            },
        }
    }
}

/// `s` with `e` after all that do not come behind it.
pub open spec fn placed(s: Seq<EntryView>, e: EntryView) -> Seq<EntryView>
    decreases s.len(),
{
    if s.len() == 0 || text_le(s.last().rel, e.rel) {
        s.push(e)
    } else {
        placed(s.drop_last(), e).push(s.last())
    }
}

/// The entries by path; those with the same path stay in their order.
pub open spec fn by_path(s: Seq<EntryView>) -> Seq<EntryView>
    decreases s.len(),
{
    if s.len() == 0 {
        s
    } else {
        placed(by_path(s.drop_last()), s.last())
    }
}

/// The bytes by which an entry is hashed.
pub open spec fn entry_bytes(e: EntryView) -> Seq<u8> {
    match e.content {
        None => seq![68u8] + encode_utf8(e.rel) + seq![0u8],
        Some(c) => seq![70u8] + encode_utf8(e.rel) + seq![0u8] + spec_u64_to_le_bytes(
            c.len() as u64,
        ) + c,
    }
}

/// The bytes by which entries are hashed.
pub open spec fn tree_bytes(s: Seq<EntryView>) -> Seq<u8>
    decreases s.len(),
{
    if s.len() == 0 {
        Seq::empty()
    } else {
        tree_bytes(s.drop_last()) + entry_bytes(s.last())
    }
}

spec fn picked(entries: Seq<Entry>, order: Seq<usize>) -> Seq<EntryView> {
    Seq::new(order.len(), |k: int| entries[order[k] as int].deep_view())
}

proof fn lemma_placed(s: Seq<EntryView>, e: EntryView, p: int)
    requires
        0 <= p <= s.len(),
        p == 0 || text_le(s[p - 1].rel, e.rel),
        forall|k: int| p <= k < s.len() ==> !text_le((#[trigger] s[k]).rel, e.rel),
    ensures
        placed(s, e) == s.insert(p, e),
    decreases s.len(),
{
    if p < s.len() {
        lemma_placed(s.drop_last(), e, p);
        assert(s.drop_last().insert(p, e).push(s.last()) =~= s.insert(p, e));
    } else {
        assert(s.push(e) =~= s.insert(p, e));
    }
}

/// The places of the entries, by path.
fn order_of(entries: &Vec<Entry>) -> (order: Vec<usize>)
    ensures
        forall|k: int| 0 <= k < order@.len() ==> #[trigger] order@[k] < entries@.len(),
        picked(entries@, order@) == by_path(entries.deep_view()),
{
    let ghost all = entries.deep_view();
    let mut order: Vec<usize> = Vec::new();
    let mut i: usize = 0;
    assert(all.take(0) =~= Seq::empty());
    assert(picked(entries@, order@) =~= Seq::empty());
    while i < entries.len()
        invariant
            i <= entries@.len(),
            all == entries.deep_view(),
            all.len() == entries@.len(),
            order@.len() <= i,
            forall|k: int| 0 <= k < order@.len() ==> #[trigger] order@[k] < entries@.len(),
            picked(entries@, order@) == by_path(all.take(i as int)),
        decreases entries@.len() - i,
    {
        let ghost had = picked(entries@, order@);
        let ghost e = all[i as int];
        proof {
            let t = all.take(i as int + 1);
            assert(t.drop_last() =~= all.take(i as int));
            assert(t.last() == e);
            assert(e == entries@[i as int].deep_view());
        }
        let mut p: usize = order.len();
        assert(had.len() == order@.len());
        while p > 0 && !str_le(entries[order[p - 1]].rel.as_str(), entries[i].rel.as_str())
            invariant
                i < entries@.len(),
                p <= order@.len(),
                had == picked(entries@, order@),
                e.rel == entries@[i as int].rel@,
                forall|k: int| 0 <= k < order@.len() ==> #[trigger] order@[k] < entries@.len(),
                forall|k: int| p <= k < had.len() ==> !text_le((#[trigger] had[k]).rel, e.rel),
            decreases p,
        {
            p = p - 1;
        }
        proof {
            if p > 0 {
                assert(had[p - 1].rel == entries@[order@[p - 1] as int].rel@);
            }
            lemma_placed(had, e, p as int);
        }
        let ghost before = order@;
        order.insert(p, i);
        assert(picked(entries@, order@) =~= had.insert(p as int, e));
        i = i + 1;
    }
    assert(all.take(i as int) =~= all);
    order
}

pub(crate) fn append(out: &mut Vec<u8>, more: &Vec<u8>)
    ensures
        final(out)@ == old(out)@ + more@,
{
    let mut i: usize = 0;
    assert(out@ + more@.take(0) =~= out@);
    while i < more.len()
        invariant
            i <= more@.len(),
            out@ == old(out)@ + more@.take(i as int),
        decreases more@.len() - i,
    {
        out.push(more[i]);
        assert(old(out)@ + more@.take(i + 1) =~= (old(out)@ + more@.take(i as int)).push(
            more@[i as int],
        ));
        i = i + 1;
    }
    assert(more@.take(i as int) =~= more@);
}

fn append_entry(out: &mut Vec<u8>, e: &Entry)
    ensures
        final(out)@ == old(out)@ + entry_bytes(e.deep_view()),
{
    let name = e.rel.as_str().as_bytes_vec();
    match &e.content {
        None => {
            out.push(68u8);
            append(out, &name);
            out.push(0u8);
        },
        Some(c) => {
            out.push(70u8);
            append(out, &name);
            out.push(0u8);
            let len = u64_to_le_bytes(c.len() as u64);
            append(out, &len);
            append(out, c);
        },
    }
    assert(out@ =~= old(out)@ + entry_bytes(e.deep_view()));
}

/// The content digest of a folder with these entries, in whatever order they
/// come.
pub fn folder_digest(entries: &Vec<Entry>) -> (r: Vec<u8>)
    ensures
        r@ == sha256(tree_bytes(by_path(entries.deep_view()))),
        r@.len() == 32,
{
    let order = order_of(entries);
    let ghost sorted = by_path(entries.deep_view());
    let mut bytes: Vec<u8> = Vec::new();
    let mut k: usize = 0;
    assert(sorted.take(0) =~= Seq::empty());
    assert(sorted.len() == order@.len());
    while k < order.len()
        invariant
            k <= order@.len(),
            sorted.len() == order@.len(),
            sorted == picked(entries@, order@),
            forall|j: int| 0 <= j < order@.len() ==> #[trigger] order@[j] < entries@.len(),
            bytes@ == tree_bytes(sorted.take(k as int)),
        decreases order@.len() - k,
    {
        proof {
            let t = sorted.take(k as int + 1);
            assert(t.drop_last() =~= sorted.take(k as int));
            assert(t.last() == entries@[order@[k as int] as int].deep_view());
        }
        append_entry(&mut bytes, &entries[order[k]]);
        k = k + 1;
    }
    assert(sorted.take(k as int) =~= sorted);
    sha256_of(bytes.as_slice())
}

// -- laws -----------------------------------------------------------------------------------

/// Whether no two entries have the same path.
pub open spec fn distinct_paths(s: Seq<EntryView>) -> bool {
    forall|i: int, j: int|
        0 <= i < j < s.len() ==> (#[trigger] s[i]).rel != (#[trigger] s[j]).rel
}

/// Whether the entries of two lists are the same, whatever their order.
pub open spec fn same_tree(a: Seq<EntryView>, b: Seq<EntryView>) -> bool {
    forall|e: EntryView| #[trigger] a.contains(e) <==> b.contains(e)
}

spec fn ascending(s: Seq<EntryView>) -> bool {
    forall|i: int, j: int|
        0 <= i < j < s.len() ==> text_le((#[trigger] s[i]).rel, (#[trigger] s[j]).rel)
            && s[i].rel != s[j].rel
}

proof fn lemma_placed_holds(s: Seq<EntryView>, e: EntryView)
    requires
        ascending(s),
        forall|k: int| 0 <= k < s.len() ==> (#[trigger] s[k]).rel != e.rel,
    ensures
        ascending(placed(s, e)),
        forall|x: EntryView| #[trigger] placed(s, e).contains(x) <==> s.contains(x) || x == e,
    decreases s.len(),
{
    let t = placed(s, e);
    if s.len() == 0 || text_le(s.last().rel, e.rel) {
        assert forall|i: int, j: int| 0 <= i < j < t.len() implies text_le(
            (#[trigger] t[i]).rel,
            (#[trigger] t[j]).rel,
        ) && t[i].rel != t[j].rel by {
            if j == s.len() {
                assert(s[i] == t[i]);
                if i < s.len() - 1 {
                    assert(text_le(s[i].rel, s[s.len() - 1].rel));
                    lemma_text_le_trans(s[i].rel, s.last().rel, e.rel);
                }
            } else {
                assert(s[i] == t[i] && s[j] == t[j]);
            }
        }
        assert forall|x: EntryView| #[trigger] t.contains(x) <==> s.contains(x) || x == e by {
            if t.contains(x) {
                let i = choose|i: int| 0 <= i < t.len() && t[i] == x;
                if i < s.len() {
                    assert(s[i] == x);
                }
            }
            if s.contains(x) {
                let i = choose|i: int| 0 <= i < s.len() && s[i] == x;
                assert(t[i] == x);
            }
            assert(t[s.len() as int] == e);
        }
    } else {
        let front = s.drop_last();
        let u = placed(front, e);
        lemma_placed_holds(front, e);
        lemma_text_le_total(s.last().rel, e.rel);
        assert forall|i: int, j: int| 0 <= i < j < t.len() implies text_le(
            (#[trigger] t[i]).rel,
            (#[trigger] t[j]).rel,
        ) && t[i].rel != t[j].rel by {
            if j == u.len() {
                assert(t[j] == s.last());
                assert(t[i] == u[i]);
                assert(u.contains(u[i]));
                if u[i] != e {
                    assert(front.contains(u[i]));
                    let k = choose|k: int| 0 <= k < front.len() && front[k] == u[i];
                    assert(s[k] == u[i]);
                    assert(text_le(s[k].rel, s[s.len() - 1].rel) && s[k].rel != s[s.len() - 1].rel);
                }
            } else {
                assert(t[i] == u[i] && t[j] == u[j]);
            }
        }
        assert forall|x: EntryView| #[trigger] t.contains(x) <==> s.contains(x) || x == e by {
            if t.contains(x) {
                let i = choose|i: int| 0 <= i < t.len() && t[i] == x;
                if i < u.len() {
                    assert(u[i] == x);
                    assert(u.contains(x));
                    if front.contains(x) {
                        let k = choose|k: int| 0 <= k < front.len() && front[k] == x;
                        assert(s[k] == x);
                    }
                } else {
                    assert(s[s.len() - 1] == x);
                }
            }
            if s.contains(x) {
                let i = choose|i: int| 0 <= i < s.len() && s[i] == x;
                if i < front.len() {
                    assert(front[i] == x);
                    assert(u.contains(x));
                    let k = choose|k: int| 0 <= k < u.len() && u[k] == x;
                    assert(t[k] == x);
                } else {
                    assert(t[u.len() as int] == x);
                }
            }
            assert(u.contains(e));
            let k = choose|k: int| 0 <= k < u.len() && u[k] == e;
            assert(t[k] == e);
        }
    }
}

proof fn lemma_by_path(s: Seq<EntryView>)
    requires
        distinct_paths(s),
    ensures
        ascending(by_path(s)),
        same_tree(by_path(s), s),
    decreases s.len(),
{
    if s.len() > 0 {
        let front = s.drop_last();
        assert(distinct_paths(front)) by {
            assert forall|i: int, j: int| 0 <= i < j < front.len() implies (#[trigger] front[i]).rel
                != (#[trigger] front[j]).rel by {
                assert(s[i].rel != s[j].rel);
            }
        }
        lemma_by_path(front);
        let u = by_path(front);
        assert forall|k: int| 0 <= k < u.len() implies (#[trigger] u[k]).rel != s.last().rel by {
            assert(u.contains(u[k]));
            assert(front.contains(u[k]));
            let i = choose|i: int| 0 <= i < front.len() && front[i] == u[k];
            assert(s[i].rel != s[s.len() - 1].rel);
        }
        lemma_placed_holds(u, s.last());
        assert forall|x: EntryView| #[trigger] by_path(s).contains(x) <==> s.contains(x) by {
            if front.contains(x) {
                let i = choose|i: int| 0 <= i < front.len() && front[i] == x;
                assert(s[i] == x);
            }
            if s.contains(x) {
                let i = choose|i: int| 0 <= i < s.len() && s[i] == x;
                if i < front.len() {
                    assert(front[i] == x);
                }
            }
            assert(s[s.len() - 1] == s.last());
            assert(u.contains(x) <==> front.contains(x));
        }
    }
}

proof fn lemma_one_order(a: Seq<EntryView>, b: Seq<EntryView>)
    requires
        ascending(a),
        ascending(b),
        same_tree(a, b),
    ensures
        a == b,
    decreases a.len(),
{
    if a.len() == 0 {
        if b.len() > 0 {
            assert(b.contains(b[0]));
            assert(a.contains(b[0]));
        }
        assert(a =~= b);
    } else {
        assert(a.contains(a[0]));
        assert(b.contains(a[0]));
        assert(b.len() > 0);
        let x = a.last();
        let y = b.last();
        assert(a.contains(x)) by {
            assert(a[a.len() - 1] == x);
        }
        assert(b.contains(y)) by {
            assert(b[b.len() - 1] == y);
        }
        assert(b.contains(x) && a.contains(y));
        let j = choose|j: int| 0 <= j < b.len() && b[j] == x;
        let i = choose|i: int| 0 <= i < a.len() && a[i] == y;
        if j < b.len() - 1 {
            assert(text_le(b[j].rel, b[b.len() - 1].rel) && b[j].rel != b[b.len() - 1].rel);
            if i < a.len() - 1 {
                assert(text_le(a[i].rel, a[a.len() - 1].rel));
                lemma_text_le_antisym(x.rel, y.rel);
            }
        }
        assert(x == y);
        let c = a.drop_last();
        let d = b.drop_last();
        assert forall|e: EntryView| #[trigger] c.contains(e) <==> d.contains(e) by {
            if c.contains(e) {
                let k = choose|k: int| 0 <= k < c.len() && c[k] == e;
                assert(a[k] == e);
                assert(a.contains(e));
                assert(b.contains(e));
                let m = choose|m: int| 0 <= m < b.len() && b[m] == e;
                assert(a[k].rel != a[a.len() - 1].rel);
                assert(m < b.len() - 1);
                assert(d[m] == e);
            }
            if d.contains(e) {
                let k = choose|k: int| 0 <= k < d.len() && d[k] == e;
                assert(b[k] == e);
                assert(b.contains(e));
                assert(a.contains(e));
                let m = choose|m: int| 0 <= m < a.len() && a[m] == e;
                assert(b[k].rel != b[b.len() - 1].rel);
                assert(m < a.len() - 1);
                assert(c[m] == e);
            }
        }
        lemma_one_order(c, d);
        assert(a =~= c.push(x));
        assert(b =~= d.push(y));
    }
}

/// Two folders with the same tree of relative paths and file contents hash
/// identically, in whatever order they are walked.
pub proof fn same_tree_same_digest(a: Seq<EntryView>, b: Seq<EntryView>)
    requires
        distinct_paths(a),
        distinct_paths(b),
        same_tree(a, b),
    ensures
        sha256(tree_bytes(by_path(a))) == sha256(tree_bytes(by_path(b))),
{
    lemma_by_path(a);
    lemma_by_path(b);
    assert(same_tree(by_path(a), by_path(b))) by {
        assert forall|e: EntryView| #[trigger] by_path(a).contains(e) <==> by_path(b).contains(
            e,
        ) by {
            assert(a.contains(e) <==> b.contains(e));
        }
    }
    lemma_one_order(by_path(a), by_path(b));
}

proof fn lemma_no_zero_scalar(c: u32)
    requires
        c != 0,
    ensures
        forall|i: int| 0 <= i < encode_scalar(c).len() ==> #[trigger] encode_scalar(c)[i] != 0,
{
    assert(c <= 0x7f ==> (c & 0x7f) as u8 != 0) by (bit_vector)
        requires
            c != 0,
    ;
    assert(0xc0u8 | ((c >> 6) & 0x1f) as u8 != 0) by (bit_vector);
    assert(0xe0u8 | ((c >> 12) & 0x0f) as u8 != 0) by (bit_vector);
    assert(0xf0u8 | ((c >> 18) & 0x07) as u8 != 0) by (bit_vector);
    assert(0x80u8 | (c & 0x3f) as u8 != 0) by (bit_vector);
    assert(0x80u8 | ((c >> 6) & 0x3f) as u8 != 0) by (bit_vector);
    assert(0x80u8 | ((c >> 12) & 0x3f) as u8 != 0) by (bit_vector);
}

proof fn lemma_no_zero_char(c: char)
    requires
        c != '\0',
    ensures
        forall|i: int|
            0 <= i < encode_scalar(c as u32).len() ==> #[trigger] encode_scalar(c as u32)[i] != 0,
{
    lemma_no_zero_scalar(c as u32);
}

pub proof fn lemma_no_zero(name: Seq<char>)
    requires
        !name.contains('\0'),
    ensures
        forall|i: int| 0 <= i < encode_utf8(name).len() ==> #[trigger] encode_utf8(name)[i] != 0,
    decreases name.len(),
{
    if name.len() > 0 {
        let rest = name.drop_first();
        assert(!rest.contains('\0')) by {
            if rest.contains('\0') {
                let i = choose|i: int| 0 <= i < rest.len() && rest[i] == '\0';
                assert(name[i + 1] == '\0');
            }
        }
        assert(name.contains(name[0]));
        lemma_no_zero_char(name[0]);
        lemma_no_zero(rest);
        let a = encode_scalar(name[0] as u32);
        let b = encode_utf8(rest);
        assert forall|i: int| 0 <= i < encode_utf8(name).len() implies #[trigger] encode_utf8(
            name,
        )[i] != 0 by {
            if i < a.len() {
                assert(encode_utf8(name)[i] == a[i]);
            } else {
                assert(encode_utf8(name)[i] == b[i - a.len()]);
            }
        }
    }
}

pub proof fn lemma_terminated(a: Seq<u8>, b: Seq<u8>, x: Seq<u8>, y: Seq<u8>)
    requires
        forall|i: int| 0 <= i < a.len() ==> #[trigger] a[i] != 0,
        forall|i: int| 0 <= i < b.len() ==> #[trigger] b[i] != 0,
        a + seq![0u8] + x == b + seq![0u8] + y,
    ensures
        a == b,
        x == y,
{
    let l = a + seq![0u8] + x;
    let r = b + seq![0u8] + y;
    if a.len() < b.len() {
        assert(l[a.len() as int] == 0);
        assert(r[a.len() as int] == b[a.len() as int]);
    }
    if b.len() < a.len() {
        assert(r[b.len() as int] == 0);
        assert(l[b.len() as int] == a[b.len() as int]);
    }
    assert(a =~= l.take(a.len() as int));
    assert(b =~= r.take(b.len() as int));
    assert(x =~= l.skip(a.len() as int + 1));
    assert(y =~= r.skip(b.len() as int + 1));
}

/// Whether an entry is one that a folder can hold: no path has a zero byte.
pub open spec fn is_entry(e: EntryView) -> bool {
    &&& !e.rel.contains('\0')
    &&& e.content matches Some(c) ==> c.len() <= u64::MAX
}

proof fn lemma_entry_first(e: EntryView, f: EntryView, x: Seq<u8>, y: Seq<u8>)
    requires
        is_entry(e),
        is_entry(f),
        entry_bytes(e) + x == entry_bytes(f) + y,
    ensures
        e == f,
        x == y,
{
    let l = entry_bytes(e) + x;
    let r = entry_bytes(f) + y;
    assert(l[0] == (if e.content is None {
        68u8
    } else {
        70u8
    }));
    assert(r[0] == (if f.content is None {
        68u8
    } else {
        70u8
    }));
    lemma_no_zero(e.rel);
    lemma_no_zero(f.rel);
    let a = encode_utf8(e.rel);
    let b = encode_utf8(f.rel);
    vstd::utf8::encode_utf8_decode_utf8(e.rel);
    vstd::utf8::encode_utf8_decode_utf8(f.rel);
    match (e.content, f.content) {
        (Some(c), Some(d)) => {
            vstd::bytes::lemma_auto_spec_u64_to_from_le_bytes();
            let m = spec_u64_to_le_bytes(c.len() as u64);
            let n = spec_u64_to_le_bytes(d.len() as u64);
            let p = m + c + x;
            let q = n + d + y;
            assert(l.skip(1) =~= a + seq![0u8] + p);
            assert(r.skip(1) =~= b + seq![0u8] + q);
            lemma_terminated(a, b, p, q);
            assert(m =~= p.take(8));
            assert(n =~= q.take(8));
            assert(spec_u64_from_le_bytes(m) == spec_u64_from_le_bytes(n));
            assert(c.len() == d.len());
            assert(c =~= p.subrange(8, 8 + c.len() as int));
            assert(d =~= q.subrange(8, 8 + d.len() as int));
            assert(x =~= p.skip(8 + c.len() as int));
            assert(y =~= q.skip(8 + d.len() as int));
        },
        _ => {
            assert(l.skip(1) =~= a + seq![0u8] + x);
            assert(r.skip(1) =~= b + seq![0u8] + y);
            lemma_terminated(a, b, x, y);
        },
    }
}

proof fn lemma_tree_front(s: Seq<EntryView>)
    requires
        s.len() > 0,
    ensures
        tree_bytes(s) == entry_bytes(s[0]) + tree_bytes(s.skip(1)),
    decreases s.len(),
{
    if s.len() == 1 {
        assert(tree_bytes(s.drop_last()) =~= Seq::empty());
        assert(tree_bytes(s.skip(1)) =~= Seq::empty());
        assert(tree_bytes(s) =~= entry_bytes(s[0]) + tree_bytes(s.skip(1)));
    } else {
        lemma_tree_front(s.drop_last());
        assert(s.drop_last().skip(1) =~= s.skip(1).drop_last());
        assert(tree_bytes(s) =~= entry_bytes(s[0]) + tree_bytes(s.skip(1)));
    }
}

/// Trees that differ, in a path, a content or what is a folder, are hashed by
/// different bytes.
pub proof fn different_trees_differ(a: Seq<EntryView>, b: Seq<EntryView>)
    requires
        forall|i: int| 0 <= i < a.len() ==> is_entry(#[trigger] a[i]),
        forall|i: int| 0 <= i < b.len() ==> is_entry(#[trigger] b[i]),
        a != b,
    ensures
        tree_bytes(a) != tree_bytes(b),
    decreases a.len(),
{
    if tree_bytes(a) == tree_bytes(b) {
        if a.len() == 0 {
            if b.len() > 0 {
                lemma_tree_front(b);
                assert(entry_bytes(b[0]).len() > 0);
            }
            assert(a =~= b);
        } else {
            lemma_tree_front(a);
            if b.len() == 0 {
                assert(entry_bytes(a[0]).len() > 0);
            } else {
                lemma_tree_front(b);
                lemma_entry_first(a[0], b[0], tree_bytes(a.skip(1)), tree_bytes(b.skip(1)));
                if a.skip(1) == b.skip(1) {
                    assert(a =~= seq![a[0]] + a.skip(1));
                    assert(b =~= seq![b[0]] + b.skip(1));
                } else {
                    different_trees_differ(a.skip(1), b.skip(1));
                }
            }
        }
    }
}

} // verus!
