use vstd::prelude::*;

verus! {

/// Whether `c` is an ASCII letter.
pub open spec fn is_ascii_letter(c: char) -> bool {
    (65 <= c as u32 && c as u32 <= 90) || (97 <= c as u32 && c as u32 <= 122)
}

/// The code of the lowercase form of an ASCII letter.
pub open spec fn lower_code(c: char) -> int {
    if 65 <= c as u32 && c as u32 <= 90 {
        c as u32 + 32
    } else {
        c as u32 as int
    }
}

/// What one occurrence of `c` contributes: an uppercase letter counts
/// against its lowercase form, a lowercase letter counts for it.
pub open spec fn char_weight(c: char) -> int {
    if 65 <= c as u32 && c as u32 <= 90 {
        -1
    } else {
        1
    }
}

/// The tally of the letter with lowercase code `key` over `s`.
pub open spec fn tally_value(s: Seq<char>, key: int) -> int
    decreases s.len(),
{
    if s.len() == 0 {
        0
    } else {
        tally_value(s.drop_last(), key) + if lower_code(s.last()) == key {
            char_weight(s.last())
        } else {
            0
        }
    }
}

/// Whether some letter of `s` has lowercase code `key`.
pub open spec fn appears(s: Seq<char>, key: int) -> bool {
    exists|i: int| 0 <= i < s.len() && lower_code(#[trigger] s[i]) == key
}

/// The order the totals are reported in: greater counts first, equal
/// counts alphabetically.
pub open spec fn entry_before(a: (char, i32), b: (char, i32)) -> bool {
    a.1 > b.1 || (a.1 == b.1 && (a.0 as u32) < (b.0 as u32))
}

pub open spec fn entries_sorted(s: Seq<(char, i32)>) -> bool {
    forall|i: int, j: int| 0 <= i < j < s.len() ==> entry_before(#[trigger] s[i], #[trigger] s[j])
}

pub open spec fn keys_unique(s: Seq<(char, i32)>) -> bool {
    forall|i: int, j: int|
        0 <= i < j < s.len() ==> (#[trigger] s[i]).0 as u32 != (#[trigger] s[j]).0 as u32
}

pub open spec fn has_key(s: Seq<(char, i32)>, key: int) -> bool {
    exists|i: int| 0 <= i < s.len() && (#[trigger] s[i]).0 as u32 == key
}

/// What must hold of every reported entry: a lowercase key that occurs
/// in the input, with the input's tally as its count.
pub open spec fn entry_good(s: Seq<char>, e: (char, i32)) -> bool {
    &&& 97 <= e.0 as u32 <= 122
    &&& appears(s, e.0 as u32 as int)
    &&& e.1 as int == tally_value(s, e.0 as u32 as int)
}

/// The tally can never exceed the number of characters read.
proof fn lemma_tally_value_bound(s: Seq<char>, key: int)
    ensures
        -s.len() <= tally_value(s, key) <= s.len(),
    decreases s.len(),
{
    if s.len() > 0 {
        lemma_tally_value_bound(s.drop_last(), key);
    }
}

/// Places `e` into a sorted run of entries whose keys all differ from
/// `e`'s key.
fn insert_sorted(v: &mut Vec<(char, i32)>, e: (char, i32))
    requires
        entries_sorted(old(v)@),
        keys_unique(old(v)@),
        forall|i: int| 0 <= i < old(v)@.len() ==> (#[trigger] old(v)@[i]).0 as u32 != e.0 as u32,
    ensures
        final(v)@.len() == old(v)@.len() + 1,
        entries_sorted(final(v)@),
        keys_unique(final(v)@),
        forall|x: (char, i32)| final(v)@.contains(x) <==> (old(v)@.contains(x) || x == e),
{
    let mut p: usize = 0;
    loop
        invariant
            0 <= p <= v@.len(),
            v == old(v),
            entries_sorted(v@),
            forall|i: int| 0 <= i < v@.len() ==> (#[trigger] v@[i]).0 as u32 != e.0 as u32,
            forall|i: int| 0 <= i < p ==> entry_before(#[trigger] v@[i], e),
        ensures
            0 <= p <= v@.len(),
            v == old(v),
            forall|i: int| 0 <= i < p ==> entry_before(#[trigger] v@[i], e),
            forall|i: int| p <= i < v@.len() ==> entry_before(e, #[trigger] v@[i]),
        decreases v@.len() - p,
    {
        if p >= v.len() {
            break ;
        }
        let (k, val) = v[p];
        if val > e.1 || (val == e.1 && (k as u32) < (e.0 as u32)) {
            p = p + 1;
        } else {
            proof {
                assert(entry_before(e, v@[p as int]));
                assert forall|i: int| p <= i < v@.len() implies entry_before(
                    e,
                    #[trigger] v@[i],
                ) by {
                    if i > p {
                        assert(entry_before(v@[p as int], v@[i]));
                    }
                }
            }
            break ;
        }
    }
    let ghost before = v@;
    v.insert(p, e);
    proof {
        let now = v@;
        assert(now == before.insert(p as int, e));
        assert(now =~= before.take(p as int) + seq![e] + before.skip(p as int));
        assert forall|i: int, j: int|
            0 <= i < j < now.len() implies entry_before(#[trigger] now[i], #[trigger] now[j]) by {
            if i < p && j < p {
                assert(now[i] == before[i] && now[j] == before[j]);
            } else if i < p && j == p {
                assert(now[i] == before[i] && now[j] == e);
            } else if i < p && j > p {
                assert(now[i] == before[i] && now[j] == before[j - 1]);
            } else if i == p && j > p {
                assert(now[i] == e && now[j] == before[j - 1]);
            } else if i > p && j > p {
                assert(now[i] == before[i - 1] && now[j] == before[j - 1]);
            }
        }
        assert forall|i: int, j: int|
            0 <= i < j < now.len() implies (#[trigger] now[i]).0 as u32 != (#[trigger] now[j]).0
            as u32 by {
            if i < p && j < p {
                assert(now[i] == before[i] && now[j] == before[j]);
            } else if i < p && j == p {
                assert(now[i] == before[i] && now[j] == e);
            } else if i < p && j > p {
                assert(now[i] == before[i] && now[j] == before[j - 1]);
            } else if i == p && j > p {
                assert(now[i] == e && now[j] == before[j - 1]);
            } else if i > p && j > p {
                assert(now[i] == before[i - 1] && now[j] == before[j - 1]);
            }
        }
        assert forall|x: (char, i32)| now.contains(x) implies (before.contains(x) || x == e) by {
            let i = choose|i: int| 0 <= i < now.len() && now[i] == x;
            if i < p {
                assert(before[i] == x);
            } else if i > p {
                assert(before[i - 1] == x);
            }
        }
        assert forall|x: (char, i32)| before.contains(x) || x == e implies now.contains(x) by {
            if x == e {
                assert(now[p as int] == x);
            } else {
                let i = choose|i: int| 0 <= i < before.len() && before[i] == x;
                if i < p {
                    assert(now[i] == x);
                } else {
                    assert(now[i + 1] == x);
                }
            }
        }
    }
}

/// The position of the entry with key `key`, if one is there.
fn find_key(acc: &Vec<(char, i32)>, key: char) -> (r: Option<usize>)
    ensures
        match r {
            Some(j) => j < acc@.len() && acc@[j as int].0 as u32 == key as u32,
            None => forall|t: int|
                0 <= t < acc@.len() ==> (#[trigger] acc@[t]).0 as u32 != key as u32,
        },
{
    let mut j: usize = 0;
    while j < acc.len()
        invariant
            0 <= j <= acc@.len(),
            forall|t: int| 0 <= t < j ==> (#[trigger] acc@[t]).0 as u32 != key as u32,
        decreases acc@.len() - j,
    {
        let (k0, _) = acc[j];
        if k0 as u32 == key as u32 {
            return Some(j);
        }
        j = j + 1;
    }
    None
}

/// Tallies the letters of `input`: a lowercase occurrence counts one
/// for its letter, an uppercase occurrence counts one against it.  The
/// totals come out with greater counts first and ties alphabetical.
pub fn tally(input: &str) -> (r: Vec<(char, i32)>)
    requires
        forall|i: int| 0 <= i < input@.len() ==> is_ascii_letter(#[trigger] input@[i]),
        input@.len() <= 0x7fff_ffff,
    ensures
        entries_sorted(r@),
        keys_unique(r@),
        forall|k: int| 0 <= k < r@.len() ==> entry_good(input@, #[trigger] r@[k]),
        forall|key: int| has_key(r@, key) <==> appears(input@, key),
{
    let chars = crate::text::str_to_chars(input);
    let s = chars.len();
    let mut acc: Vec<(char, i32)> = Vec::new();
    let mut i: usize = 0;
    while i < s
        invariant
            0 <= i <= s,
            s == input@.len(),
            chars@ == input@,
            input@.len() <= 0x7fff_ffff,
            forall|t: int| 0 <= t < input@.len() ==> is_ascii_letter(#[trigger] input@[t]),
            keys_unique(acc@),
            forall|k: int|
                0 <= k < acc@.len() ==> 97 <= (#[trigger] acc@[k]).0 as u32 <= 122,
            forall|k: int|
                0 <= k < acc@.len() ==> appears(
                    input@.take(i as int),
                    (#[trigger] acc@[k]).0 as u32 as int,
                ),
            forall|k: int|
                0 <= k < acc@.len() ==> (#[trigger] acc@[k]).1 as int == tally_value(
                    input@.take(i as int),
                    acc@[k].0 as u32 as int,
                ),
            forall|key: int| has_key(acc@, key) <==> appears(input@.take(i as int), key),
        decreases s - i,
    {
        let c = chars[i];
        let code = c as u32;
        let lower: char = if 65 <= code && code <= 90 {
            ((code + 32) as u8) as char
        } else {
            c
        };
        let weight: i32 = if 65 <= code && code <= 90 {
            -1
        } else {
            1
        };
        proof {
            assert(is_ascii_letter(input@[i as int]));
            assert(lower as u32 == lower_code(input@[i as int]));
            assert(weight as int == char_weight(input@[i as int]));
            assert(input@.take(i + 1).drop_last() =~= input@.take(i as int));
            assert(input@.take(i + 1).last() == input@[i as int]);
        }
        let ghost pre = acc@;
        if let Some(j) = find_key(&acc, lower) {
            let (k0, v0) = acc[j];
            proof {
                lemma_tally_value_bound(input@.take(i as int), k0 as u32 as int);
            }
            let updated: i32 = v0 + weight;
            acc[j] = (k0, updated);
            proof {
                assert(acc@ == pre.update(j as int, (k0, updated)));
                assert forall|k: int|
                    0 <= k < acc@.len() implies (#[trigger] acc@[k]).1 as int == tally_value(
                    input@.take(i + 1),
                    acc@[k].0 as u32 as int,
                ) by {
                    if k != j {
                        assert(acc@[k] == pre[k]);
                        assert(acc@[k].0 as u32 != lower as u32);
                    }
                }
                assert forall|key: int|
                    has_key(acc@, key) <==> appears(input@.take(i + 1), key) by {
                    if has_key(acc@, key) {
                        let t = choose|t: int|
                            0 <= t < acc@.len() && (#[trigger] acc@[t]).0 as u32 == key;
                        assert(pre[t].0 as u32 == key);
                        assert(has_key(pre, key));
                    }
                    if appears(input@.take(i + 1), key) {
                        let t = choose|t: int|
                            0 <= t < input@.take(i + 1).len() && lower_code(
                                #[trigger] input@.take(i + 1)[t],
                            ) == key;
                        if t < i {
                            assert(appears(input@.take(i as int), key));
                            assert(has_key(pre, key));
                            let u = choose|u: int|
                                0 <= u < pre.len() && (#[trigger] pre[u]).0 as u32 == key;
                            assert(pre[u].0 as u32 == key);
                            if u == j {
                                assert(acc@[u].0 == k0);
                            } else {
                                assert(acc@[u] == pre[u]);
                            }
                            assert(acc@[u].0 as u32 == key);
                        } else {
                            assert(key == lower as u32);
                            assert(acc@[j as int].0 == k0);
                            assert(acc@[j as int].0 as u32 == key);
                        }
                    }
                    if has_key(pre, key) {
                        let t = choose|t: int|
                            0 <= t < pre.len() && (#[trigger] pre[t]).0 as u32 == key;
                        if t == j {
                            assert(acc@[t].0 == k0);
                        } else {
                            assert(acc@[t] == pre[t]);
                        }
                        assert(acc@[t].0 as u32 == key);
                        assert(has_key(acc@, key));
                    }
                }
            }
        } else {
            acc.push((lower, weight));
            proof {
                assert(acc@ == pre.push((lower, weight)));
                assert forall|k: int|
                    0 <= k < acc@.len() implies (#[trigger] acc@[k]).1 as int == tally_value(
                    input@.take(i + 1),
                    acc@[k].0 as u32 as int,
                ) by {
                    if k < pre.len() {
                        assert(acc@[k] == pre[k]);
                        assert(acc@[k].0 as u32 != lower as u32);
                    } else {
                        assert(acc@[k] == (lower, weight));
                        if appears(input@.take(i as int), lower as u32 as int) {
                            assert(has_key(pre, lower as u32 as int));
                            let u = choose|u: int|
                                0 <= u < pre.len() && (#[trigger] pre[u]).0 as u32 == lower as u32;
                            assert(false);
                        }
                        lemma_tally_value_zero(input@.take(i as int), lower as u32 as int);
                    }
                }
                assert forall|key: int|
                    has_key(acc@, key) <==> appears(input@.take(i + 1), key) by {
                    if has_key(acc@, key) {
                        let t = choose|t: int|
                            0 <= t < acc@.len() && (#[trigger] acc@[t]).0 as u32 == key;
                        if t < pre.len() {
                            assert(has_key(pre, key));
                        } else {
                            assert(key == lower as u32);
                            assert(lower_code(input@.take(i + 1)[i as int]) == key);
                        }
                    }
                    if appears(input@.take(i + 1), key) {
                        let t = choose|t: int|
                            0 <= t < input@.take(i + 1).len() && lower_code(
                                #[trigger] input@.take(i + 1)[t],
                            ) == key;
                        if t < i {
                            assert(appears(input@.take(i as int), key));
                            assert(has_key(pre, key));
                            let u = choose|u: int|
                                0 <= u < pre.len() && (#[trigger] pre[u]).0 as u32 == key;
                            assert(pre[u].0 as u32 == key);
                            assert(acc@[u] == pre[u]);
                            assert(acc@[u].0 as u32 == key);
                        } else {
                            assert(key == lower as u32);
                            assert(acc@[pre.len() as int] == (lower, weight));
                            assert(acc@[pre.len() as int].0 as u32 == key);
                        }
                    }
                    if has_key(pre, key) {
                        let t = choose|t: int|
                            0 <= t < pre.len() && (#[trigger] pre[t]).0 as u32 == key;
                        assert(acc@[t].0 as u32 == key);
                    }
                }
            }
        }
        i = i + 1;
    }
    proof {
        assert(input@.take(input@.len() as int) =~= input@);
    }
    let mut out: Vec<(char, i32)> = Vec::new();
    let mut t: usize = 0;
    while t < acc.len()
        invariant
            0 <= t <= acc@.len(),
            keys_unique(acc@),
            forall|k: int|
                0 <= k < acc@.len() ==> 97 <= (#[trigger] acc@[k]).0 as u32 <= 122,
            forall|k: int|
                0 <= k < acc@.len() ==> appears(input@, (#[trigger] acc@[k]).0 as u32 as int),
            forall|k: int|
                0 <= k < acc@.len() ==> (#[trigger] acc@[k]).1 as int == tally_value(
                    input@,
                    acc@[k].0 as u32 as int,
                ),
            forall|key: int| has_key(acc@, key) <==> appears(input@, key),
            entries_sorted(out@),
            keys_unique(out@),
            forall|x: (char, i32)| out@.contains(x) <==> acc@.take(t as int).contains(x),
        decreases acc@.len() - t,
    {
        let e = acc[t];
        proof {
            assert forall|i2: int|
                0 <= i2 < out@.len() implies (#[trigger] out@[i2]).0 as u32 != e.0 as u32 by {
                assert(out@.contains(out@[i2]));
                let u = choose|u: int|
                    0 <= u < acc@.take(t as int).len() && acc@.take(t as int)[u] == out@[i2];
                assert(acc@[u] == out@[i2]);
                assert(acc@[t as int] == e);
            }
        }
        insert_sorted(&mut out, e);
        proof {
            assert forall|x: (char, i32)|
                out@.contains(x) <==> acc@.take(t + 1).contains(x) by {
                if out@.contains(x) {
                    if x == e {
                        assert(acc@.take(t + 1)[t as int] == x);
                    } else {
                        let u = choose|u: int|
                            0 <= u < acc@.take(t as int).len() && #[trigger] acc@.take(
                                t as int,
                            )[u] == x;
                        assert(acc@.take(t + 1)[u] == x);
                    }
                }
                if acc@.take(t + 1).contains(x) {
                    let u = choose|u: int|
                        0 <= u < acc@.take(t + 1).len() && #[trigger] acc@.take(t + 1)[u] == x;
                    if u < t {
                        assert(acc@.take(t as int)[u] == x);
                        assert(acc@.take(t as int).contains(x));
                    } else {
                        assert(x == e);
                    }
                }
            }
        }
        t = t + 1;
    }
    proof {
        assert(acc@.take(acc@.len() as int) =~= acc@);
        assert forall|k: int|
            0 <= k < out@.len() implies entry_good(input@, #[trigger] out@[k]) by {
            assert(out@.contains(out@[k]));
            let u = choose|u: int| 0 <= u < acc@.len() && #[trigger] acc@[u] == out@[k];
        }
        assert forall|key: int| has_key(out@, key) <==> appears(input@, key) by {
            if has_key(out@, key) {
                let i2 = choose|i2: int|
                    0 <= i2 < out@.len() && (#[trigger] out@[i2]).0 as u32 == key;
                assert(out@.contains(out@[i2]));
                let u = choose|u: int| 0 <= u < acc@.len() && #[trigger] acc@[u] == out@[i2];
                assert(has_key(acc@, key));
            }
            if appears(input@, key) {
                let u = choose|u: int|
                    0 <= u < acc@.len() && (#[trigger] acc@[u]).0 as u32 == key;
                assert(acc@.contains(acc@[u]));
                assert(out@.contains(acc@[u]));
                let i2 = choose|i2: int| 0 <= i2 < out@.len() && #[trigger] out@[i2] == acc@[u];
                assert(has_key(out@, key));
            }
        }
    }
    out
}

/// A letter that never occurs tallies to zero.
proof fn lemma_tally_value_zero(s: Seq<char>, key: int)
    requires
        !appears(s, key),
    ensures
        tally_value(s, key) == 0,
    decreases s.len(),
{
    if s.len() > 0 {
        assert forall|i: int|
            0 <= i < s.drop_last().len() implies lower_code(#[trigger] s.drop_last()[i])
            != key by {
            assert(s[i] == s.drop_last()[i]);
        }
        lemma_tally_value_zero(s.drop_last(), key);
        assert(lower_code(s.last()) != key);
    }
}

} // verus!
