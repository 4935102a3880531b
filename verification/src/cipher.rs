use vstd::prelude::*;

use crate::matrix::{cell_at, TransMatrix};
use crate::spiral::{lemma_spiral_covers_grid, spiral, SpiralTraversal};
use crate::text::chars_to_string;

verus! {

/// The transposition routes the cipher knows of.  Only the inward spiral
/// is implemented; the route argument of `encode` is accepted for the
/// sake of the interface and does not change the traversal.
#[derive(Debug)]
pub enum TransRoute {
    Spiral,
    ReverseSpiral,
}

/// What `str::to_uppercase` returns for a given sequence of characters.
pub uninterp spec fn upper_of(s: Seq<char>) -> Seq<char>;

/// Whether `char::is_alphabetic` holds of a character.
pub uninterp spec fn is_alpha(c: char) -> bool;

/// Relies on `str::to_uppercase`: the result depends on the characters
/// alone, and is converted to a vector one character at a time.
#[verifier::external_body]
fn to_upper_chars(s: &str) -> (r: Vec<char>)
    ensures
        r@ == upper_of(s@),
{
    s.to_uppercase().chars().collect()
}

/// Relies on `char::is_alphabetic`: the answer depends on the character
/// alone.
#[verifier::external_body]
fn char_is_alphabetic(c: char) -> (r: bool)
    ensures
        r == is_alpha(c),
{
    c.is_alphabetic()
}

/// The text a matrix is built from: the source uppercased, keeping only
/// the alphabetic characters.
pub open spec fn clean_text(s: Seq<char>) -> Seq<char> {
    upper_of(s).filter(|c: char| is_alpha(c))
}

/// Keeps the alphabetic characters of `chars`, in order.
fn filter_alphabetic(chars: Vec<char>) -> (r: Vec<char>)
    ensures
        r@ == chars@.filter(|c: char| is_alpha(c)),
{
    let mut out: Vec<char> = Vec::new();
    let mut i: usize = 0;
    while i < chars.len()
        invariant
            i <= chars.len(),
            out@ == chars@.take(i as int).filter(|c: char| is_alpha(c)),
        decreases chars.len() - i,
    {
        let c = chars[i];
        proof {
            reveal(Seq::filter);
            assert(chars@.take(i + 1).drop_last() =~= chars@.take(i as int));
            assert(chars@.take(i + 1).last() == chars@[i as int]);
        }
        if char_is_alphabetic(c) {
            out.push(c);
        }
        i = i + 1;
    }
    proof {
        assert(chars@.take(chars@.len() as int) =~= chars@);
    }
    out
}

/// The ciphertext for a `w` by `h` grid over source text `s`: the cleaned
/// text read back in spiral order, with padding past its end.
pub open spec fn encode_spec(w: int, h: int, s: Seq<char>) -> Seq<char> {
    spiral(w, h).map(|i: int, c: (int, int)| cell_at(clean_text(s), w, c.0, c.1))
}

/// Encoding is a function of its arguments alone: two encodings of the
/// same source text over the same grid are the same string, whatever
/// route values they were called with.
pub proof fn lemma_encode_deterministic(
    w: int,
    h: int,
    s: Seq<char>,
    r1: Seq<char>,
    r2: Seq<char>,
)
    requires
        r1 == encode_spec(w, h, s),
        r2 == encode_spec(w, h, s),
    ensures
        r1 == r2,
{
}

/// The route cipher: owns the declared grid dimensions and drives a
/// spiral traversal over a matrix built from the source text.
#[derive(Debug)]
pub struct TransCipher {
    dimensions: (usize, usize),
}

impl TransCipher {
    pub closed spec fn spec_width(self) -> int {
        self.dimensions.0 as int
    }

    pub closed spec fn spec_height(self) -> int {
        self.dimensions.1 as int
    }

    /// Dimensions are positive and the grid's capacity is addressable.
    pub closed spec fn wf(self) -> bool {
        &&& self.spec_width() >= 1
        &&& self.spec_height() >= 1
        &&& self.spec_width() * self.spec_height() <= usize::MAX as int
    }

    /// A cipher for an `x` by `y` grid.
    pub fn new(x: usize, y: usize) -> (c: TransCipher)
        requires
            1 <= x,
            1 <= y,
            x * y <= usize::MAX,
        ensures
            c.wf(),
            c.spec_width() == x,
            c.spec_height() == y,
    {
        TransCipher { dimensions: (x, y) }
    }

    /// Builds the matrix for this cipher's dimensions: the source text is
    /// uppercased and stripped to its alphabetic characters.
    pub fn build_matrix(&self, to_encode: &str) -> (m: TransMatrix)
        requires
            self.wf(),
        ensures
            m.wf(),
            m.cells() == clean_text(to_encode@),
            m.spec_width() == self.spec_width(),
            m.spec_height() == self.spec_height(),
    {
        let upper = to_upper_chars(to_encode);
        let filtered = filter_alphabetic(upper);
        TransMatrix::make(filtered, self.dimensions)
    }

    /// Encodes the source text: builds the matrix, walks the spiral, and
    /// concatenates the matrix character at every visited coordinate.
    pub fn encode(&self, route: TransRoute, to_encode: &str) -> (r: String)
        requires
            self.wf(),
        ensures
            r@ == encode_spec(self.spec_width(), self.spec_height(), to_encode@),
            r@.len() == self.spec_width() * self.spec_height(),
    {
        let _ = route;
        let ghost w = self.spec_width();
        let ghost h = self.spec_height();
        let ghost source = clean_text(to_encode@);
        let matrix = self.build_matrix(to_encode);
        let mut traversal = SpiralTraversal::new(self.dimensions.0, self.dimensions.1);
        let mut out: Vec<char> = Vec::new();
        proof {
            lemma_spiral_covers_grid(w, h);
        }
        loop
            invariant
                matrix.wf(),
                matrix.spec_width() == w,
                matrix.spec_height() == h,
                matrix.cells() == source,
                1 <= w,
                1 <= h,
                traversal.wf(),
                traversal.spec_width() == w,
                traversal.spec_height() == h,
                traversal.yielded() + traversal.pending() == spiral(w, h),
                out@.len() == traversal.yielded().len(),
                forall|i: int|
                    0 <= i < out@.len() ==> out@[i] == cell_at(
                        source,
                        w,
                        traversal.yielded()[i].0,
                        traversal.yielded()[i].1,
                    ),
            ensures
                traversal.pending().len() == 0,
                out@.len() == traversal.yielded().len(),
                forall|i: int|
                    0 <= i < out@.len() ==> out@[i] == cell_at(
                        source,
                        w,
                        traversal.yielded()[i].0,
                        traversal.yielded()[i].1,
                    ),
            decreases traversal.pending().len(),
        {
            let ghost pre = traversal;
            match traversal.next() {
                None => {
                    break ;
                },
                Some(coord) => {
                    proof {
                        lemma_spiral_covers_grid(w, h);
                        assert(spiral(w, h)[pre.yielded().len() as int] == pre.pending()[0]);
                        assert(spiral(w, h).contains(pre.pending()[0]));
                    }
                    let looked_up = matrix.get_char(coord);
                    let ch = match looked_up {
                        Ok(ch) => ch,
                        Err(_) => {
                            proof {
                                assert(false);
                            }
                            vstd::pervasive::unreached()
                        },
                    };
                    out.push(ch);
                    proof {
                        assert(traversal.yielded() =~= pre.yielded().push(pre.pending()[0]));
                    }
                },
            }
        }
        proof {
            assert(traversal.yielded() =~= spiral(w, h));
            assert(out@ =~= encode_spec(w, h, to_encode@));
        }
        chars_to_string(&out)
    }
}

} // verus!
