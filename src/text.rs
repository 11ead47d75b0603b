use vstd::prelude::*;

verus! {

/// `parts` with `sep` between each two neighbours.
pub open spec fn joined(parts: Seq<Seq<char>>, sep: Seq<char>) -> Seq<char>
    decreases parts.len(),
{
    if parts.len() == 0 {
        Seq::empty()
    } else if parts.len() == 1 {
        parts[0]
    } else {
        joined(parts.drop_last(), sep) + sep + parts.last()
    }
}

pub open spec fn views(v: Seq<String>) -> Seq<Seq<char>> {
    v.map_values(|s: String| s@)
}

/// The strings of `parts` with `sep` between each two neighbours.
pub fn join(parts: &Vec<String>, sep: &str) -> (r: String)
    ensures
        r@ == joined(views(parts@), sep@),
{
    let mut out = String::new();
    let mut i: usize = 0;
    while i < parts.len()
        invariant
            i <= parts@.len(),
            out@ == joined(views(parts@.subrange(0, i as int)), sep@),
        decreases parts@.len() - i,
    {
        proof {
            let next = views(parts@.subrange(0, i as int + 1));
            assert(next.drop_last() =~= views(parts@.subrange(0, i as int)));
            assert(next.last() == parts@[i as int]@);
        }
        if i > 0 {
            out.append(sep);
        }
        out.append(parts[i].as_str());
        proof {
            if i == 0 {
                assert(out@ =~= parts@[0]@);
            }
        }
        i = i + 1;
    }
    proof {
        assert(parts@.subrange(0, parts@.len() as int) =~= parts@);
    }
    out
}

/// `p` holds no `||`.
pub open spec fn free_of_bars(p: Seq<char>) -> bool {
    forall|i: int| 0 <= i < p.len() - 1 ==> !(p[i] == '|' && #[trigger] p[i + 1] == '|')
}

/// `parts` is what splitting `s` at each `||`, from the left, gives: they join
/// back to `s`, none holds `||`, and none but the last ends in `|` (else the
/// separator would have been found one character earlier).
pub open spec fn is_split(s: Seq<char>, parts: Seq<Seq<char>>) -> bool {
    &&& parts.len() >= 1
    &&& joined(parts, "||"@) == s
    &&& forall|k: int| 0 <= k < parts.len() ==> free_of_bars(#[trigger] parts[k])
    &&& forall|k: int|
        0 <= k < parts.len() - 1 ==> !(#[trigger] parts[k].len() > 0 && parts[k].last() == '|')
}

/// Splits the `||`-joined list `val` into its parts.
pub fn split(val: String) -> (r: Vec<String>)
    ensures
        is_split(val@, views(r@)),
{
    let s = val.as_str();
    let ghost sv = s@;
    let n = s.unicode_len();
    let mut parts: Vec<String> = Vec::new();
    let mut start: usize = 0;
    let mut i: usize = 0;
    proof {
        reveal_strlit("||");
        assert("||"@ =~= seq!['|', '|']);
    }
    while i < n
        invariant
            n == sv.len(),
            sv == val@,
            s@ == sv,
            "||"@ == seq!['|', '|'],
            start <= i <= n,
            parts@.len() == 0 ==> start == 0,
            parts@.len() > 0 ==> joined(views(parts@), "||"@) + "||"@ == sv.subrange(0, start as int),
            forall|k: int| 0 <= k < parts@.len() ==> free_of_bars(#[trigger] views(parts@)[k]),
            forall|k: int|
                0 <= k < parts@.len() ==> !(#[trigger] views(parts@)[k].len() > 0 && views(parts@)[k].last() == '|'),
            forall|j: int| start <= j < i && j + 1 < n ==> !(#[trigger] sv[j] == '|' && sv[j + 1] == '|'),
        decreases n - i,
    {
        if i + 1 < n && s.get_char(i) == '|' && s.get_char(i + 1) == '|' {
            let part = s.substring_char(start, i).to_owned();
            let ghost p = part@;
            let ghost old_parts = views(parts@);
            parts.push(part);
            proof {
                assert(views(parts@) =~= old_parts.push(p));
                assert(views(parts@).drop_last() =~= old_parts);
                assert(p =~= sv.subrange(start as int, i as int));
                assert forall|q: int| 0 <= q < p.len() - 1 implies !(p[q] == '|' && #[trigger] p[q + 1] == '|') by {
                    assert(p[q] == sv[start + q]);
                    assert(p[q + 1] == sv[start + q + 1]);
                }
                if p.len() > 0 {
                    assert(p.last() == sv[i - 1]);
                    assert(sv[i as int] == '|');
                    assert(!(sv[i - 1] == '|' && sv[i - 1 + 1] == '|'));
                }
                if old_parts.len() == 0 {
                    assert(joined(views(parts@), "||"@) == p);
                } else {
                    assert(joined(views(parts@), "||"@) == joined(old_parts, "||"@) + "||"@ + p);
                }
                assert(joined(views(parts@), "||"@) + "||"@ =~= sv.subrange(0, i as int + 2));
            }
            i = i + 2;
            start = i;
        } else {
            i = i + 1;
        }
    }
    let last = s.substring_char(start, n).to_owned();
    let ghost p = last@;
    let ghost old_parts = views(parts@);
    parts.push(last);
    proof {
        assert(views(parts@) =~= old_parts.push(p));
        assert(views(parts@).drop_last() =~= old_parts);
        assert(p =~= sv.subrange(start as int, n as int));
        assert forall|q: int| 0 <= q < p.len() - 1 implies !(p[q] == '|' && #[trigger] p[q + 1] == '|') by {
            assert(p[q] == sv[start + q]);
            assert(p[q + 1] == sv[start + q + 1]);
        }
        if old_parts.len() == 0 {
            assert(joined(views(parts@), "||"@) == p);
            assert(p =~= sv);
        } else {
            assert(joined(views(parts@), "||"@) == joined(old_parts, "||"@) + "||"@ + p);
            assert(joined(views(parts@), "||"@) =~= sv);
        }
    }
    parts
}

} // verus!
