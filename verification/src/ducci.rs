use vstd::prelude::*;

use crate::text::{
    chars_to_string, dec_rep, push_dec, parse_uint, split_chars, split_on, str_to_chars,
    uint_val, valid_uint,
};

verus! {

/// The absolute difference of two integers.
pub open spec fn abs_diff(a: int, b: int) -> int {
    if a >= b {
        a - b
    } else {
        b - a
    }
}

/// One Ducci step: every entry becomes the absolute difference between
/// it and its right neighbour, the last entry wrapping around to the
/// first.
pub open spec fn ducci_step(s: Seq<u32>) -> Seq<u32> {
    Seq::new(
        s.len(),
        |i: int|
            abs_diff(
                s[i] as int,
                s[
                    if i == s.len() - 1 {
                        0int
                    } else {
                        i + 1
                    }
                ] as int,
            ) as u32,
    )
}

/// Whether every entry of the tuple is zero.
pub open spec fn all_zero(s: Seq<u32>) -> bool {
    forall|i: int| 0 <= i < s.len() ==> #[trigger] s[i] == 0u32
}

/// Generates the Ducci sequence of a starting tuple, stopping at the
/// all-zero fixed point or at the first tuple seen before.
pub struct DucciIterator {
    current: Vec<u32>,
    seen: Vec<Vec<u32>>,
}

impl DucciIterator {
    /// The tuple the iterator stands at.
    pub closed spec fn spec_current(self) -> Seq<u32> {
        self.current@
    }

    /// The tuples already emitted or started from, oldest first.
    pub closed spec fn spec_seen(self) -> Seq<Seq<u32>> {
        Seq::new(self.seen@.len(), |i: int| self.seen@[i]@)
    }

    /// Whether the sequence has reached its end: the all-zero tuple, or a
    /// tuple that already occurred.
    pub open spec fn finished(self) -> bool {
        all_zero(self.spec_current()) || self.spec_seen().contains(self.spec_current())
    }

    pub fn new(starting: Vec<u32>) -> (it: DucciIterator)
        ensures
            it.spec_current() == starting@,
            it.spec_seen() == Seq::<Seq<u32>>::empty(),
    {
        let it = DucciIterator { current: starting, seen: Vec::new() };
        proof {
            assert(it.spec_seen() =~= Seq::<Seq<u32>>::empty());
        }
        it
    }

    /// Whether the current tuple ends the sequence.
    fn is_last(&self) -> (r: bool)
        ensures
            r == self.finished(),
    {
        let mut zeros = true;
        let mut i: usize = 0;
        while i < self.current.len()
            invariant
                0 <= i <= self.current@.len(),
                zeros == all_zero(self.current@.take(i as int)),
            decreases self.current@.len() - i,
        {
            let zi = self.current[i];
            if zi != 0 {
                zeros = false;
            }
            proof {
                let pre = self.current@.take(i as int);
                let post = self.current@.take(i + 1);
                if zi == 0u32 && all_zero(pre) {
                    assert forall|j: int| 0 <= j < post.len() implies #[trigger] post[j] == 0u32 by {
                        if j < i {
                            assert(pre[j] == 0u32);
                        }
                    }
                }
                if zi != 0u32 {
                    assert(post[i as int] != 0u32);
                }
                if !all_zero(pre) {
                    let j = choose|j: int| 0 <= j < pre.len() && #[trigger] pre[j] != 0u32;
                    assert(post[j] != 0u32);
                }
            }
            i = i + 1;
        }
        proof {
            assert(self.current@.take(self.current@.len() as int) =~= self.current@);
        }
        if zeros {
            return true;
        }
        let mut j: usize = 0;
        while j < self.seen.len()
            invariant
                0 <= j <= self.seen@.len(),
                forall|k: int| 0 <= k < j ==> self.spec_seen()[k] != self.spec_current(),
            decreases self.seen@.len() - j,
        {
            if vec_u32_eq(&self.seen[j], &self.current) {
                proof {
                    assert(self.spec_seen()[j as int] == self.spec_current());
                }
                return true;
            }
            j = j + 1;
        }
        proof {
            assert(!self.spec_seen().contains(self.spec_current()));
        }
        false
    }

    /// The next tuple of the sequence.
    fn calculate_next(&self) -> (r: Vec<u32>)
        ensures
            r@ == ducci_step(self.spec_current()),
    {
        let len = self.current.len();
        let mut out: Vec<u32> = Vec::new();
        let mut i: usize = 0;
        while i < len
            invariant
                len == self.current@.len(),
                0 <= i <= len,
                out@.len() == i,
                forall|k: int| 0 <= k < i ==> out@[k] == ducci_step(self.current@)[k],
            decreases len - i,
        {
            let next_ix: usize = if i + 1 == len {
                0
            } else {
                i + 1
            };
            let a = self.current[i];
            let b = self.current[next_ix];
            let d = if a >= b {
                a - b
            } else {
                b - a
            };
            out.push(d);
            i = i + 1;
        }
        proof {
            assert(out@ =~= ducci_step(self.current@));
        }
        out
    }

    /// Steps the sequence: yields the tuple after the current one, or
    /// `None` once the sequence has ended; the tuple stepped away from is
    /// recorded as seen.
    pub fn next(&mut self) -> (r: Option<Vec<u32>>)
        ensures
            (r is None) <==> old(self).finished(),
            r is None ==> final(self).spec_current() == old(self).spec_current()
                && final(self).spec_seen() == old(self).spec_seen(),
            r is Some ==> (r->0)@ == ducci_step(old(self).spec_current())
                && final(self).spec_current() == ducci_step(old(self).spec_current())
                && final(self).spec_seen() == old(self).spec_seen().push(
                old(self).spec_current(),
            ),
    {
        if self.is_last() {
            return None;
        }
        let next = self.calculate_next();
        let previous = copy_vec_u32(&self.current);
        self.seen.push(previous);
        self.current = next;
        let out = copy_vec_u32(&self.current);
        proof {
            assert(self.spec_seen() =~= old(self).spec_seen().push(old(self).spec_current()));
        }
        Some(out)
    }
}

/// The error raised for a line that does not parse as a tuple.
#[derive(Debug)]
pub enum DucciError {
    ParseError(&'static str),
}

/// The text between the parentheses of `s`, with every space removed.
pub open spec fn inner_text(s: Seq<char>) -> Seq<char> {
    s.subrange(1, s.len() - 1).filter(|c: char| c != ' ')
}

/// The comma-separated pieces of the text between the parentheses.
pub open spec fn list_segments(s: Seq<char>) -> Seq<Seq<char>> {
    split_on(inner_text(s), ',')
}

/// Whether every piece is a decimal numeral that fits a `u32`.
pub open spec fn segments_valid(segs: Seq<Seq<char>>) -> bool {
    forall|k: int| 0 <= k < segs.len() ==> valid_uint(#[trigger] segs[k], u32::MAX as int)
}

/// Parses a line of the form `(1, 2, 3)` into its numbers.  The line
/// must open with `(` and close with `)`; spaces between the parentheses
/// are ignored; every comma-separated piece must be a decimal `u32`.
pub fn parse_input(input: String) -> (r: Result<Vec<u32>, DucciError>)
    requires
        input@.len() >= 1,
        input@[0] == '(' ==> input@.len() >= 2,
    ensures
        match r {
            Ok(vals) => {
                &&& input@[0] == '('
                &&& input@.last() == ')'
                &&& segments_valid(list_segments(input@))
                &&& vals@.len() == list_segments(input@).len()
                &&& forall|k: int|
                    0 <= k < vals@.len() ==> #[trigger] vals@[k] as int == uint_val(
                        list_segments(input@)[k],
                    )
            },
            Err(e) => {
                &&& (input@[0] != '(' || input@.last() != ')' || !segments_valid(
                    list_segments(input@),
                ))
                &&& input@[0] != '(' ==> (e->0)@ == "Input should begin with ("@
                &&& input@[0] == '(' && input@.last() != ')' ==> (e->0)@
                    == "Input should end with )"@
                &&& input@[0] == '(' && input@.last() == ')' ==> (e->0)@
                    == "Error while parsing integers"@
            },
        },
{
    let chars = str_to_chars(input.as_str());
    if chars[0] != '(' {
        return Err(DucciError::ParseError("Input should begin with ("));
    }
    if chars[chars.len() - 1] != ')' {
        return Err(DucciError::ParseError("Input should end with )"));
    }
    let mut mid: Vec<char> = Vec::new();
    let mut i: usize = 1;
    let end = chars.len() - 1;
    while i < end
        invariant
            1 <= i <= end,
            end == chars@.len() - 1,
            chars@.len() >= 2,
            chars@ == input@,
            mid@ == chars@.subrange(1, i as int).filter(|c: char| c != ' '),
        decreases end - i,
    {
        let c = chars[i];
        proof {
            reveal(Seq::filter);
            assert(chars@.subrange(1, i + 1).drop_last() =~= chars@.subrange(1, i as int));
            assert(chars@.subrange(1, i + 1).last() == chars@[i as int]);
        }
        if c != ' ' {
            mid.push(c);
        }
        i = i + 1;
    }
    proof {
        assert(chars@.subrange(1, end as int) =~= input@.subrange(1, input@.len() - 1));
        assert(mid@ == inner_text(input@));
    }
    let segments = split_chars(&mid, ',');
    let mut vals: Vec<u32> = Vec::new();
    let mut k: usize = 0;
    while k < segments.len()
        invariant
            0 <= k <= segments@.len(),
            input@.len() >= 2,
            input@[0] == '(',
            input@.last() == ')',
            segments@.len() == list_segments(input@).len(),
            forall|j: int|
                0 <= j < segments@.len() ==> segments@[j]@ == list_segments(input@)[j],
            vals@.len() == k,
            forall|j: int|
                0 <= j < k ==> valid_uint(#[trigger] list_segments(input@)[j], u32::MAX as int),
            forall|j: int|
                0 <= j < k ==> #[trigger] vals@[j] as int == uint_val(list_segments(input@)[j]),
        decreases segments@.len() - k,
    {
        match parse_uint(&segments[k], 0xffff_ffff) {
            Some(v) => {
                vals.push(v as u32);
            },
            None => {
                proof {
                    assert(!valid_uint(list_segments(input@)[k as int], u32::MAX as int));
                }
                return Err(DucciError::ParseError("Error while parsing integers"));
            },
        }
        k = k + 1;
    }
    Ok(vals)
}

/// The printed form of a tuple: the numbers joined by `; ` inside square
/// brackets.
pub open spec fn joined_dec(vals: Seq<u32>, sep: Seq<char>) -> Seq<char>
    decreases vals.len(),
{
    if vals.len() == 0 {
        Seq::empty()
    } else if vals.len() == 1 {
        dec_rep(vals[0] as nat)
    } else {
        joined_dec(vals.drop_last(), sep) + sep + dec_rep(vals.last() as nat)
    }
}

/// The line printed for a tuple.
pub open spec fn line_format(vals: Seq<u32>) -> Seq<char> {
    seq!['['] + joined_dec(vals, "; "@) + seq![']']
}

/// Renders a tuple as `[a; b; c]`.
pub fn format_line(row: &Vec<u32>) -> (r: String)
    ensures
        r@ == line_format(row@),
{
    let mut out: Vec<char> = Vec::new();
    out.push('[');
    let mut i: usize = 0;
    while i < row.len()
        invariant
            0 <= i <= row@.len(),
            out@ == seq!['['] + joined_dec(row@.take(i as int), "; "@),
        decreases row@.len() - i,
    {
        if i > 0 {
            out.push(';');
            out.push(' ');
        }
        push_dec(row[i] as usize, &mut out);
        proof {
            reveal_strlit("; ");
            assert(row@.take(i + 1).drop_last() =~= row@.take(i as int));
            assert(row@.take(i + 1).last() == row@[i as int]);
            assert(out@ =~= seq!['['] + joined_dec(row@.take(i + 1), "; "@));
        }
        i = i + 1;
    }
    out.push(']');
    proof {
        assert(row@.take(row@.len() as int) =~= row@);
        assert(out@ =~= line_format(row@));
    }
    chars_to_string(&out)
}

/// Whether two vectors hold the same numbers in the same order.
fn vec_u32_eq(a: &Vec<u32>, b: &Vec<u32>) -> (r: bool)
    ensures
        r == (a@ == b@),
{
    if a.len() != b.len() {
        return false;
    }
    let mut i: usize = 0;
    while i < a.len()
        invariant
            a@.len() == b@.len(),
            0 <= i <= a@.len(),
            forall|j: int| 0 <= j < i ==> a@[j] == b@[j],
        decreases a@.len() - i,
    {
        if a[i] != b[i] {
            return false;
        }
        i = i + 1;
    }
    proof {
        assert(a@ =~= b@);
    }
    true
}

/// A copy of the vector.
fn copy_vec_u32(v: &Vec<u32>) -> (r: Vec<u32>)
    ensures
        r@ == v@,
{
    let mut out: Vec<u32> = Vec::new();
    let mut i: usize = 0;
    while i < v.len()
        invariant
            0 <= i <= v@.len(),
            out@ == v@.take(i as int),
        decreases v@.len() - i,
    {
        out.push(v[i]);
        proof {
            assert(out@ =~= v@.take(i + 1));
        }
        i = i + 1;
    }
    proof {
        assert(out@ =~= v@);
    }
    out
}

} // verus!
