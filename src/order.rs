use vstd::prelude::*;
use vstd::string::StrSliceExecFns;

verus! {

/// Position `a` comes before position `b`: smaller key, or equal key and
/// smaller index.
pub open spec fn key_before(keys: Seq<u64>, a: int, b: int) -> bool {
    keys[a] < keys[b] || (keys[a] == keys[b] && a < b)
}

/// `ord` lists every index of `keys` once, by key and then by index.
pub open spec fn is_stable_order(keys: Seq<u64>, ord: Seq<usize>) -> bool {
    &&& ord.len() == keys.len()
    &&& forall|k: int| 0 <= k < ord.len() ==> #[trigger] ord[k] < keys.len()
    &&& forall|a: int, b: int|
        0 <= a < b < ord.len() ==> key_before(keys, #[trigger] ord[a] as int, #[trigger] ord[b] as int)
}

/// The indices of `keys` ordered by key, equal keys in index order.
pub fn order_by_key(keys: &Vec<u64>) -> (r: Vec<usize>)
    ensures
        is_stable_order(keys@, r@),
{
    let mut out: Vec<usize> = Vec::new();
    let mut i: usize = 0;
    while i < keys.len()
        invariant
            i <= keys@.len(),
            out@.len() == i,
            forall|k: int| 0 <= k < out@.len() ==> #[trigger] out@[k] < i,
            forall|a: int, b: int|
                0 <= a < b < out@.len() ==> key_before(
                    keys@,
                    #[trigger] out@[a] as int,
                    #[trigger] out@[b] as int,
                ),
        decreases keys@.len() - i,
    {
        let key = keys[i];
        let mut p: usize = 0;
        while p < out.len() && keys[out[p]] <= key
            invariant
                p <= out@.len(),
                i < keys@.len(),
                forall|k: int| 0 <= k < out@.len() ==> #[trigger] out@[k] < i,
                forall|k: int| 0 <= k < p ==> keys@[#[trigger] out@[k] as int] <= key,
            decreases out@.len() - p,
        {
            p += 1;
        }
        let ghost before = out@;
        proof {
            assert forall|k: int| p <= k < before.len() implies keys@[#[trigger] before[k] as int] > key by {
                assert(keys@[before[p as int] as int] > key);
                if k > p {
                    assert(key_before(keys@, before[p as int] as int, before[k] as int));
                }
            }
        }
        out.insert(p, i);
        proof {
            assert forall|a: int, b: int|
                0 <= a < b < out@.len() implies key_before(
                    keys@,
                    #[trigger] out@[a] as int,
                    #[trigger] out@[b] as int,
                ) by {
                if b < p {
                    assert(out@[a] == before[a] && out@[b] == before[b]);
                } else if b == p {
                    assert(out@[a] == before[a]);
                } else if a < p {
                    assert(out@[a] == before[a] && out@[b] == before[b - 1]);
                } else if a == p {
                    assert(out@[b] == before[b - 1]);
                } else {
                    assert(out@[a] == before[a - 1] && out@[b] == before[b - 1]);
                }
            }
            assert forall|k: int| 0 <= k < out@.len() implies #[trigger] out@[k] < i + 1 by {
                if k < p {
                    assert(out@[k] == before[k]);
                } else if k > p {
                    assert(out@[k] == before[k - 1]);
                }
            }
        }
        i += 1;
    }
    out
}

} // verus!

verus! {

/// `a` sorts strictly before `b`, character by character (by code point,
/// which is also the order of their UTF-8 bytes); a proper prefix sorts first.
pub open spec fn text_lt(a: Seq<char>, b: Seq<char>) -> bool
    decreases a.len(),
{
    if a.len() == 0 {
        b.len() > 0
    } else if b.len() == 0 {
        false
    } else if a[0] != b[0] {
        (a[0] as int) < (b[0] as int)
    } else {
        text_lt(a.drop_first(), b.drop_first())
    }
}

pub proof fn lemma_text_lt_irreflexive(a: Seq<char>)
    ensures
        !text_lt(a, a),
    decreases a.len(),
{
    if a.len() > 0 {
        lemma_text_lt_irreflexive(a.drop_first());
    }
}

pub proof fn lemma_text_lt_transitive(a: Seq<char>, b: Seq<char>, c: Seq<char>)
    requires
        text_lt(a, b),
        text_lt(b, c),
    ensures
        text_lt(a, c),
    decreases a.len(),
{
    if a.len() > 0 && b.len() > 0 && c.len() > 0 && a[0] == b[0] && b[0] == c[0] {
        lemma_text_lt_transitive(a.drop_first(), b.drop_first(), c.drop_first());
    }
}

pub proof fn lemma_text_lt_total(a: Seq<char>, b: Seq<char>)
    requires
        a != b,
    ensures
        text_lt(a, b) || text_lt(b, a),
    decreases a.len(),
{
    if a.len() > 0 && b.len() > 0 && a[0] == b[0] {
        if a.drop_first() == b.drop_first() {
            assert(a =~= seq![a[0]] + a.drop_first());
            assert(b =~= seq![b[0]] + b.drop_first());
        }
        lemma_text_lt_total(a.drop_first(), b.drop_first());
    } else if a.len() > 0 && b.len() > 0 {
        assert((a[0] as int) != (b[0] as int));
    } else if a.len() == 0 && b.len() == 0 {
        assert(a =~= b);
    }
}

/// Whether `a` sorts strictly before `b`.
pub fn text_less(a: &str, b: &str) -> (r: bool)
    ensures
        r == text_lt(a@, b@),
{
    let la = a.unicode_len();
    let lb = b.unicode_len();
    let mut i: usize = 0;
    assert(a@.skip(0) =~= a@ && b@.skip(0) =~= b@);
    while i < la && i < lb
        invariant
            la == a@.len(),
            lb == b@.len(),
            i <= la,
            i <= lb,
            text_lt(a@, b@) == text_lt(a@.skip(i as int), b@.skip(i as int)),
        decreases la - i,
    {
        let ca = a.get_char(i);
        let cb = b.get_char(i);
        assert(a@.skip(i as int)[0] == ca && b@.skip(i as int)[0] == cb);
        if ca != cb {
            return (ca as u32) < (cb as u32);
        }
        assert(a@.skip(i as int).drop_first() =~= a@.skip(i + 1));
        assert(b@.skip(i as int).drop_first() =~= b@.skip(i + 1));
        i += 1;
    }
    assert(a@.skip(i as int).len() == la - i);
    i == la && i < lb
}

/// Position `a` comes before position `b`: smaller text, or equal text and
/// smaller index.
pub open spec fn text_before(keys: Seq<Seq<char>>, a: int, b: int) -> bool {
    text_lt(keys[a], keys[b]) || (keys[a] == keys[b] && a < b)
}

/// `ord` lists every index of `keys` once, by text and then by index.
pub open spec fn is_text_order(keys: Seq<Seq<char>>, ord: Seq<usize>) -> bool {
    &&& ord.len() == keys.len()
    &&& forall|k: int| 0 <= k < ord.len() ==> #[trigger] ord[k] < keys.len()
    &&& forall|a: int, b: int|
        0 <= a < b < ord.len() ==> text_before(keys, #[trigger] ord[a] as int, #[trigger] ord[b] as int)
}

pub open spec fn texts(v: Seq<String>) -> Seq<Seq<char>> {
    Seq::new(v.len(), |i: int| v[i]@)
}

/// The indices of `keys` ordered by text, equal texts in index order.
pub fn order_by_text(keys: &Vec<String>) -> (r: Vec<usize>)
    ensures
        is_text_order(texts(keys@), r@),
{
    let ghost ks = texts(keys@);
    let mut out: Vec<usize> = Vec::new();
    let mut i: usize = 0;
    while i < keys.len()
        invariant
            ks == texts(keys@),
            i <= keys@.len(),
            out@.len() == i,
            forall|k: int| 0 <= k < out@.len() ==> #[trigger] out@[k] < i,
            forall|a: int, b: int|
                0 <= a < b < out@.len() ==> text_before(
                    ks,
                    #[trigger] out@[a] as int,
                    #[trigger] out@[b] as int,
                ),
        decreases keys@.len() - i,
    {
        let mut p: usize = 0;
        while p < out.len() && !text_less(keys[i].as_str(), keys[out[p]].as_str())
            invariant
                ks == texts(keys@),
                p <= out@.len(),
                i < keys@.len(),
                forall|k: int| 0 <= k < out@.len() ==> #[trigger] out@[k] < i,
                forall|k: int| 0 <= k < p ==> !text_lt(ks[i as int], ks[#[trigger] out@[k] as int]),
            decreases out@.len() - p,
        {
            p += 1;
        }
        let ghost before = out@;
        proof {
            assert forall|k: int| p <= k < before.len() implies text_lt(
                ks[i as int],
                ks[#[trigger] before[k] as int],
            ) by {
                if k > p {
                    assert(text_before(ks, before[p as int] as int, before[k] as int));
                    if text_lt(ks[before[p as int] as int], ks[before[k] as int]) {
                        lemma_text_lt_transitive(
                            ks[i as int],
                            ks[before[p as int] as int],
                            ks[before[k] as int],
                        );
                    }
                }
            }
            assert forall|k: int| 0 <= k < p implies text_before(
                ks,
                #[trigger] before[k] as int,
                i as int,
            ) by {
                if ks[before[k] as int] != ks[i as int] {
                    lemma_text_lt_total(ks[before[k] as int], ks[i as int]);
                }
            }
        }
        out.insert(p, i);
        proof {
            assert forall|a: int, b: int|
                0 <= a < b < out@.len() implies text_before(
                    ks,
                    #[trigger] out@[a] as int,
                    #[trigger] out@[b] as int,
                ) by {
                if b < p {
                    assert(out@[a] == before[a] && out@[b] == before[b]);
                } else if b == p {
                    assert(out@[a] == before[a]);
                } else if a < p {
                    assert(out@[a] == before[a] && out@[b] == before[b - 1]);
                    assert(text_before(ks, before[a] as int, i as int));
                    assert(text_lt(ks[i as int], ks[before[b - 1] as int]));
                    if text_lt(ks[before[a] as int], ks[i as int]) {
                        lemma_text_lt_transitive(
                            ks[before[a] as int],
                            ks[i as int],
                            ks[before[b - 1] as int],
                        );
                    }
                } else if a == p {
                    assert(out@[b] == before[b - 1]);
                } else {
                    assert(out@[a] == before[a - 1] && out@[b] == before[b - 1]);
                }
            }
            assert forall|k: int| 0 <= k < out@.len() implies #[trigger] out@[k] < i + 1 by {
                if k < p {
                    assert(out@[k] == before[k]);
                } else if k > p {
                    assert(out@[k] == before[k - 1]);
                }
            }
        }
        i += 1;
    }
    out
}

} // verus!
