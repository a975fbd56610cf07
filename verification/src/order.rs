//! Lexicographic ordering of strings, used to keep the collected target
//! set in a canonical order: the rendered pipeline must come out identical
//! however the release graph happens to list its targets.

use vstd::prelude::*;

use vstd::string::StrSliceExecFns;

verus! {

/// Lexicographic order on character sequences, by code point; a prefix
/// sorts before its extensions.
pub open spec fn lex_le(a: Seq<char>, b: Seq<char>) -> bool
    decreases a.len(),
{
    if a.len() == 0 {
        true
    } else if b.len() == 0 {
        false
    } else if (a[0] as u32) < (b[0] as u32) {
        true
    } else if (b[0] as u32) < (a[0] as u32) {
        false
    } else {
        lex_le(a.drop_first(), b.drop_first())
    }
}

/// The order is total.
pub proof fn lemma_lex_le_total(a: Seq<char>, b: Seq<char>)
    ensures
        lex_le(a, b) || lex_le(b, a),
    decreases a.len(),
{
    if a.len() != 0 && b.len() != 0 && a[0] as u32 == b[0] as u32 {
        lemma_lex_le_total(a.drop_first(), b.drop_first());
    }
}

/// Characters with equal code points are equal.
proof fn char_code_injective(x: char, y: char)
    requires
        x as u32 == y as u32,
    ensures
        x == y,
{
}

/// The order is reflexive.
pub proof fn lemma_lex_le_refl(a: Seq<char>)
    ensures
        lex_le(a, a),
    decreases a.len(),
{
    if a.len() != 0 {
        lemma_lex_le_refl(a.drop_first());
    }
}

/// The order is antisymmetric: mutually ordered sequences are equal.
pub proof fn lemma_lex_le_antisymmetric(a: Seq<char>, b: Seq<char>)
    requires
        lex_le(a, b),
        lex_le(b, a),
    ensures
        a == b,
    decreases a.len(),
{
    if a.len() != 0 && b.len() != 0 {
        assert(a[0] as u32 == b[0] as u32);
        assert(a[0] == b[0]) by {
            char_code_injective(a[0], b[0]);
        }
        lemma_lex_le_antisymmetric(a.drop_first(), b.drop_first());
        assert(a =~= seq![a[0]] + a.drop_first());
        assert(b =~= seq![b[0]] + b.drop_first());
    } else {
        assert(a =~= b);
    }
}

/// The order is transitive.
pub proof fn lemma_lex_le_transitive(a: Seq<char>, b: Seq<char>, c: Seq<char>)
    requires
        lex_le(a, b),
        lex_le(b, c),
    ensures
        lex_le(a, c),
    decreases a.len(),
{
    if a.len() != 0 && b.len() != 0 && c.len() != 0 && a[0] as u32 == b[0] as u32 && b[0] as u32
        == c[0] as u32 {
        lemma_lex_le_transitive(a.drop_first(), b.drop_first(), c.drop_first());
    }
}

/// Sharing a prefix of length `i` reduces the comparison to the tails.
proof fn lemma_lex_le_common_prefix(a: Seq<char>, b: Seq<char>, i: int)
    requires
        0 <= i <= a.len(),
        i <= b.len(),
        forall|k: int| 0 <= k < i ==> a[k] == b[k],
    ensures
        lex_le(a, b) == lex_le(a.skip(i), b.skip(i)),
    decreases i,
{
    if i > 0 {
        lemma_lex_le_common_prefix(a.drop_first(), b.drop_first(), i - 1);
        assert(a.drop_first().skip(i - 1) =~= a.skip(i));
        assert(b.drop_first().skip(i - 1) =~= b.skip(i));
    } else {
        assert(a.skip(0) =~= a);
        assert(b.skip(0) =~= b);
    }
}

/// Insert `t` into an ascending sequence, keeping it ascending.
pub open spec fn insert_sorted(acc: Seq<Seq<char>>, t: Seq<char>) -> Seq<Seq<char>>
    decreases acc.len(),
{
    if acc.len() == 0 {
        seq![t]
    } else if lex_le(t, acc[0]) {
        seq![t] + acc
    } else {
        seq![acc[0]] + insert_sorted(acc.drop_first(), t)
    }
}

/// Inserting at the first position whose element sorts at or after `t`
/// realizes `insert_sorted`.
pub proof fn lemma_insert_sorted_at(acc: Seq<Seq<char>>, t: Seq<char>, j: int)
    requires
        0 <= j <= acc.len(),
        forall|k: int| 0 <= k < j ==> !lex_le(t, #[trigger] acc[k]),
        j < acc.len() ==> lex_le(t, acc[j]),
    ensures
        insert_sorted(acc, t) == acc.insert(j, t),
    decreases acc.len(),
{
    if acc.len() == 0 {
        assert(insert_sorted(acc, t) =~= acc.insert(0, t));
    } else if lex_le(t, acc[0]) {
        assert(j == 0);
        assert(seq![t] + acc =~= acc.insert(0, t));
    } else {
        assert(j >= 1);
        lemma_insert_sorted_at(acc.drop_first(), t, j - 1);
        assert(seq![acc[0]] + acc.drop_first().insert(j - 1, t) =~= acc.insert(j, t));
    }
}

/// The sequence is in ascending lexicographic order.
pub open spec fn ascending(s: Seq<Seq<char>>) -> bool {
    forall|i: int, j: int| 0 <= i < j < s.len() ==> lex_le(#[trigger] s[i], #[trigger] s[j])
}

/// No two elements of the sequence are equal.
pub open spec fn all_distinct(s: Seq<Seq<char>>) -> bool {
    forall|i: int, j: int| 0 <= i < j < s.len() ==> #[trigger] s[i] != #[trigger] s[j]
}

/// A sorted insertion holds exactly the old elements and the new one.
pub proof fn lemma_insert_sorted_membership(acc: Seq<Seq<char>>, t: Seq<char>)
    ensures
        insert_sorted(acc, t).len() == acc.len() + 1,
        forall|x: Seq<char>|
            insert_sorted(acc, t).contains(x) <==> (acc.contains(x) || x == t),
    decreases acc.len(),
{
    broadcast use vstd::seq_lib::group_seq_properties;

    if acc.len() == 0 {
        assert(insert_sorted(acc, t)[0] == t);
    } else if lex_le(t, acc[0]) {
        assert(forall|x: Seq<char>|
            (seq![t] + acc).contains(x) <==> (seq![t].contains(x) || acc.contains(x)));
        assert(seq![t][0] == t);
    } else {
        lemma_insert_sorted_membership(acc.drop_first(), t);
        let rest = insert_sorted(acc.drop_first(), t);
        assert(forall|x: Seq<char>|
            (seq![acc[0]] + rest).contains(x) <==> (seq![acc[0]].contains(x) || rest.contains(x)));
        assert(seq![acc[0]][0] == acc[0]);
        assert(forall|x: Seq<char>| acc.contains(x) <==> (x == acc[0] || acc.drop_first().contains(
            x,
        )));
    }
}

/// A sorted insertion keeps the sequence ascending.
pub proof fn lemma_insert_sorted_ascending(acc: Seq<Seq<char>>, t: Seq<char>)
    requires
        ascending(acc),
    ensures
        ascending(insert_sorted(acc, t)),
    decreases acc.len(),
{
    if acc.len() == 0 {
    } else if lex_le(t, acc[0]) {
        let out = seq![t] + acc;
        assert forall|i: int, j: int| 0 <= i < j < out.len() implies lex_le(
            #[trigger] out[i],
            #[trigger] out[j],
        ) by {
            if i == 0 {
                if j > 1 {
                    lemma_lex_le_transitive(t, acc[0], acc[j - 1]);
                }
            }
        }
    } else {
        lemma_lex_le_total(t, acc[0]);
        assert(lex_le(acc[0], t));
        lemma_insert_sorted_ascending(acc.drop_first(), t);
        lemma_insert_sorted_membership(acc.drop_first(), t);
        let rest = insert_sorted(acc.drop_first(), t);
        let out = seq![acc[0]] + rest;
        assert forall|i: int, j: int| 0 <= i < j < out.len() implies lex_le(
            #[trigger] out[i],
            #[trigger] out[j],
        ) by {
            if i == 0 {
                assert(out[j] == rest[j - 1]);
                assert(rest.contains(rest[j - 1]));
                if rest[j - 1] != t {
                    assert(acc.drop_first().contains(rest[j - 1]));
                    let k = choose|k: int|
                        0 <= k < acc.drop_first().len() && acc.drop_first()[k] == rest[j - 1];
                    assert(acc.drop_first()[k] == acc[k + 1]);
                    assert(lex_le(acc[0], acc[k + 1]));
                }
            } else {
                assert(lex_le(rest[i - 1], rest[j - 1]));
            }
        }
    }
}

/// A sorted insertion of a fresh element keeps the elements distinct.
pub proof fn lemma_insert_sorted_distinct(acc: Seq<Seq<char>>, t: Seq<char>)
    requires
        all_distinct(acc),
        !acc.contains(t),
    ensures
        all_distinct(insert_sorted(acc, t)),
    decreases acc.len(),
{
    broadcast use vstd::seq_lib::group_seq_properties;

    if acc.len() == 0 {
    } else if lex_le(t, acc[0]) {
        let out = seq![t] + acc;
        assert forall|i: int, j: int| 0 <= i < j < out.len() implies #[trigger] out[i]
            != #[trigger] out[j] by {
            if i == 0 {
                assert(acc.contains(acc[j - 1]));
            }
        }
    } else {
        assert(forall|x: Seq<char>| acc.drop_first().contains(x) ==> acc.contains(x));
        lemma_insert_sorted_distinct(acc.drop_first(), t);
        lemma_insert_sorted_membership(acc.drop_first(), t);
        let rest = insert_sorted(acc.drop_first(), t);
        let out = seq![acc[0]] + rest;
        assert forall|i: int, j: int| 0 <= i < j < out.len() implies #[trigger] out[i]
            != #[trigger] out[j] by {
            if i == 0 {
                assert(out[j] == rest[j - 1]);
                assert(rest.contains(rest[j - 1]));
                if rest[j - 1] != t {
                    assert(acc.drop_first().contains(rest[j - 1]));
                    let k = choose|k: int|
                        0 <= k < acc.drop_first().len() && acc.drop_first()[k] == rest[j - 1];
                    assert(acc.drop_first()[k] == acc[k + 1]);
                    assert(acc[0] != acc[k + 1]);
                } else {
                    assert(acc.contains(acc[0]));
                }
            } else {
                assert(rest[i - 1] != rest[j - 1]);
            }
        }
    }
}

/// Canonical form is unique: two ascending, duplicate-free lists holding
/// the same targets are identical. Whatever order targets arrive in, their
/// set has exactly one canonical presentation.
pub proof fn lemma_canonical_unique(a: Seq<Seq<char>>, b: Seq<Seq<char>>)
    requires
        ascending(a),
        all_distinct(a),
        ascending(b),
        all_distinct(b),
        forall|x: Seq<char>| a.contains(x) <==> b.contains(x),
    ensures
        a == b,
    decreases a.len(),
{
    if a.len() == 0 {
        if b.len() > 0 {
            assert(b.contains(b[0]));
            assert(a.contains(b[0]));
        }
        assert(a =~= b);
    } else {
        assert(a.contains(a[0]));
        assert(b.contains(a[0]));
        let k = choose|k: int| 0 <= k < b.len() && b[k] == a[0];
        if k == 0 {
            lemma_lex_le_refl(b[0]);
        }
        assert(lex_le(b[0], a[0]));
        assert(b.contains(b[0]));
        assert(a.contains(b[0]));
        let k2 = choose|k2: int| 0 <= k2 < a.len() && a[k2] == b[0];
        if k2 == 0 {
            lemma_lex_le_refl(a[0]);
        }
        assert(lex_le(a[0], b[0]));
        lemma_lex_le_antisymmetric(a[0], b[0]);
        assert(a[0] == b[0]);
        assert forall|x: Seq<char>| a.drop_first().contains(x) implies b.drop_first().contains(
            x,
        ) by {
            lemma_tail_membership(a, b, x);
        }
        assert forall|x: Seq<char>| b.drop_first().contains(x) implies a.drop_first().contains(
            x,
        ) by {
            lemma_tail_membership(b, a, x);
        }
        lemma_canonical_unique(a.drop_first(), b.drop_first());
        assert(a.len() == b.len());
        assert forall|i: int| 0 <= i < a.len() implies a[i] == b[i] by {
            if i > 0 {
                assert(a.drop_first()[i - 1] == b.drop_first()[i - 1]);
            }
        }
        assert(a =~= b);
    }
}

/// An element of `a`'s tail sits in `b`'s tail too, once the heads agree
/// and the lists hold the same elements without duplicates.
proof fn lemma_tail_membership(a: Seq<Seq<char>>, b: Seq<Seq<char>>, x: Seq<char>)
    requires
        all_distinct(a),
        a.len() > 0,
        b.len() > 0,
        a[0] == b[0],
        forall|y: Seq<char>| a.contains(y) <==> b.contains(y),
        a.drop_first().contains(x),
    ensures
        b.drop_first().contains(x),
{
    let j = choose|j: int| 0 <= j < a.drop_first().len() && a.drop_first()[j] == x;
    assert(a[j + 1] == x);
    assert(a.contains(x));
    assert(b.contains(x));
    let k = choose|k: int| 0 <= k < b.len() && b[k] == x;
    if k == 0 {
        assert(a[0] == x);
        assert(a[0] != a[j + 1]);
        assert(false);
    }
    assert(b.drop_first()[k - 1] == x);
}

/// Whether `a` sorts at or before `b`, by direct comparison.
pub fn str_le(a: &str, b: &str) -> (r: bool)
    ensures
        r == lex_le(a@, b@),
{
    let n = a.unicode_len();
    let m = b.unicode_len();
    let mut i: usize = 0;
    loop
        invariant
            n == a@.len(),
            m == b@.len(),
            0 <= i <= n,
            i <= m,
            forall|k: int| 0 <= k < i ==> a@[k] == b@[k],
        decreases n - i,
    {
        proof {
            lemma_lex_le_common_prefix(a@, b@, i as int);
        }
        if i == n {
            proof {
                assert(a@.skip(i as int).len() == 0);
            }
            return true;
        }
        if i == m {
            proof {
                assert(b@.skip(i as int).len() == 0);
                assert(a@.skip(i as int).len() > 0);
            }
            return false;
        }
        let ca = a.get_char(i);
        let cb = b.get_char(i);
        proof {
            assert(a@.skip(i as int)[0] == a@[i as int]);
            assert(b@.skip(i as int)[0] == b@[i as int]);
        }
        if (ca as u32) < (cb as u32) {
            return true;
        }
        if (cb as u32) < (ca as u32) {
            return false;
        }
        proof {
            assert(ca == cb);
        }
        i += 1;
    }
}

} // verus!
