use vstd::prelude::*;

use crate::text::{join, joined, views};

verus! {

/// `a` sorts strictly before `b`: character by character, a proper prefix first.
pub open spec fn char_lt(a: Seq<char>, b: Seq<char>) -> bool
    decreases a.len(),
{
    if b.len() == 0 {
        false
    } else if a.len() == 0 {
        true
    } else if a[0] == b[0] {
        char_lt(a.drop_first(), b.drop_first())
    } else {
        (a[0] as int) < (b[0] as int)
    }
}

pub proof fn lemma_lt_total(a: Seq<char>, b: Seq<char>)
    ensures
        a != b ==> char_lt(a, b) || char_lt(b, a),
    decreases a.len(),
{
    if a.len() > 0 && b.len() > 0 && a[0] == b[0] {
        lemma_lt_total(a.drop_first(), b.drop_first());
        if a.drop_first() == b.drop_first() {
            assert(a =~= seq![a[0]] + a.drop_first());
            assert(b =~= seq![b[0]] + b.drop_first());
        }
    }
    if a.len() > 0 && b.len() > 0 && a[0] != b[0] {
        assert((a[0] as int) != (b[0] as int));
    }
    if a.len() == 0 && b.len() == 0 {
        assert(a =~= b);
    }
}

pub proof fn lemma_lt_transitive(a: Seq<char>, b: Seq<char>, c: Seq<char>)
    requires
        char_lt(a, b),
        char_lt(b, c),
    ensures
        char_lt(a, c),
    decreases a.len(),
{
    if a.len() > 0 && a[0] == b[0] && b[0] == c[0] {
        lemma_lt_transitive(a.drop_first(), b.drop_first(), c.drop_first());
    }
}

/// Whether `a` sorts strictly before `b`.
pub fn str_less(a: &str, b: &str) -> (r: bool)
    ensures
        r == char_lt(a@, b@),
{
    let n = a.unicode_len();
    let m = b.unicode_len();
    let mut i: usize = 0;
    proof {
        assert(a@.skip(0) =~= a@);
        assert(b@.skip(0) =~= b@);
    }
    while i < n && i < m
        invariant
            n == a@.len(),
            m == b@.len(),
            i <= n && i <= m,
            char_lt(a@, b@) == char_lt(a@.skip(i as int), b@.skip(i as int)),
        decreases n - i,
    {
        let x = a.get_char(i);
        let y = b.get_char(i);
        proof {
            assert(a@.skip(i as int)[0] == x);
            assert(b@.skip(i as int)[0] == y);
            assert(a@.skip(i as int).drop_first() =~= a@.skip(i as int + 1));
            assert(b@.skip(i as int).drop_first() =~= b@.skip(i as int + 1));
        }
        if x != y {
            return (x as u32) < (y as u32);
        }
        i = i + 1;
    }
    i == n && i < m
}

/// Every id of `s` sorts strictly before the ids after it.
pub open spec fn strictly_sorted(s: Seq<Seq<char>>) -> bool {
    forall|i: int, j: int| 0 <= i < j < s.len() ==> char_lt(#[trigger] s[i], #[trigger] s[j])
}

/// The members of a conversation between the users of `picked` and `self_id`:
/// each of them once, in sorted order.
pub fn user_room_members(picked: &Vec<String>, self_id: &str) -> (r: Vec<String>)
    ensures
        strictly_sorted(views(r@)),
        forall|u: Seq<char>|
            #[trigger] views(r@).contains(u) <==> (views(picked@).contains(u) || u == self_id@),
{
    let mut out: Vec<String> = Vec::new();
    let mut i: usize = 0;
    while i < picked.len()
        invariant
            i <= picked@.len(),
            strictly_sorted(views(out@)),
            forall|u: Seq<char>|
                #[trigger] views(out@).contains(u) <==> views(picked@).subrange(0, i as int).contains(u),
        decreases picked@.len() - i,
    {
        let ghost before = views(out@);
        insert_sorted(&mut out, &picked[i]);
        proof {
            let prev = views(picked@).subrange(0, i as int);
            let next = views(picked@).subrange(0, i as int + 1);
            assert(next =~= prev.push(picked@[i as int]@));
            assert forall|u: Seq<char>| #[trigger] views(out@).contains(u) <==> next.contains(u) by {
                if prev.contains(u) {
                    let k = choose|k: int| 0 <= k < prev.len() && prev[k] == u;
                    assert(next[k] == u);
                }
                if u == picked@[i as int]@ {
                    assert(next[i as int] == u);
                }
                if next.contains(u) && u != picked@[i as int]@ {
                    let k = choose|k: int| 0 <= k < next.len() && next[k] == u;
                    assert(prev[k] == u);
                }
            }
        }
        i = i + 1;
    }
    proof {
        assert(views(picked@).subrange(0, picked@.len() as int) =~= views(picked@));
    }
    let me = self_id.to_owned();
    insert_sorted(&mut out, &me);
    out
}

/// Puts `id` into the sorted list `out` unless it is there already.
fn insert_sorted(out: &mut Vec<String>, id: &String)
    requires
        strictly_sorted(views(old(out)@)),
    ensures
        strictly_sorted(views(final(out)@)),
        forall|u: Seq<char>|
            #[trigger] views(final(out)@).contains(u) <==> (views(old(out)@).contains(u) || u == id@),
{
    let mut p: usize = 0;
    while p < out.len() && str_less(out[p].as_str(), id.as_str())
        invariant
            p <= out@.len(),
            out@ == old(out)@,
            forall|k: int| 0 <= k < p ==> char_lt(#[trigger] out@[k]@, id@),
        decreases out@.len() - p,
    {
        p = p + 1;
    }
    let ghost before = views(out@);
    if p < out.len() && out[p] == *id {
        proof {
            assert(before[p as int] == id@);
        }
        return ;
    }
    proof {
        if p < out@.len() {
            lemma_lt_total(out@[p as int]@, id@);
        }
        assert forall|j: int| p <= j < before.len() implies char_lt(id@, #[trigger] before[j]) by {
            if j > p {
                assert(char_lt(before[p as int], before[j]));
                lemma_lt_transitive(id@, before[p as int], before[j]);
            }
        }
    }
    out.insert(p, id.clone());
    proof {
        let after = views(out@);
        assert(after =~= before.insert(p as int, id@));
        assert forall|i: int, j: int| 0 <= i < j < after.len() implies char_lt(
            #[trigger] after[i],
            #[trigger] after[j],
        ) by {
            if i < p && j < p {
                assert(char_lt(before[i], before[j]));
            } else if i < p && j == p {
                assert(char_lt(out@[i]@, id@));
            } else if i < p {
                assert(char_lt(before[i], before[j - 1]));
            } else if i == p {
                assert(char_lt(id@, before[j - 1]));
            } else {
                assert(char_lt(before[i - 1], before[j - 1]));
            }
        }
        assert forall|u: Seq<char>| #[trigger] after.contains(u) <==> (before.contains(u) || u == id@) by {
            if before.contains(u) {
                let k = choose|k: int| 0 <= k < before.len() && before[k] == u;
                if k < p {
                    assert(after[k] == u);
                } else {
                    assert(after[k + 1] == u);
                }
            }
            if u == id@ {
                assert(after[p as int] == u);
            }
            if after.contains(u) {
                let k = choose|k: int| 0 <= k < after.len() && after[k] == u;
                if k < p {
                    assert(before[k] == u);
                } else if k > p {
                    assert(before[k - 1] == u);
                }
            }
        }
    }
}

/// The id of the conversation room of `members`: their ids joined by `-`.
pub fn user_room_id(members: &Vec<String>) -> (r: String)
    ensures
        r@ == joined(views(members@), "-"@),
{
    join(members, "-")
}

} // verus!
