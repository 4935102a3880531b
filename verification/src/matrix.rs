use vstd::prelude::*;

use crate::text::{dec_rep, dec_string};

verus! {

/// The padding character substituted when the stored text is shorter than
/// the declared grid capacity.
pub open spec fn padding() -> char {
    'X'
}

/// The character a `width` by `height` grid backed by `cells` holds at
/// `(x, y)`: the cell at row-major index `x + y * width`, or the padding
/// character when the backing text ends before that index.
pub open spec fn cell_at(cells: Seq<char>, width: int, x: int, y: int) -> char {
    if x + y * width < cells.len() {
        cells[x + y * width]
    } else {
        padding()
    }
}

/// A lookup outside the declared dimensions of a matrix: the offending
/// coordinates together with the dimensions they were checked against.
#[derive(Debug)]
pub struct OutOfBoundsError {
    x: usize,
    y: usize,
    dimensions: (usize, usize),
}

impl OutOfBoundsError {
    /// The coordinates that were asked for.
    pub closed spec fn coords(self) -> (int, int) {
        (self.x as int, self.y as int)
    }

    /// The dimensions of the matrix the lookup was made against.
    pub closed spec fn dims(self) -> (int, int) {
        (self.dimensions.0 as int, self.dimensions.1 as int)
    }

    pub(crate) fn make(x: usize, y: usize, dimensions: (usize, usize)) -> (e: OutOfBoundsError)
        ensures
            e.coords() == (x as int, y as int),
            e.dims() == (dimensions.0 as int, dimensions.1 as int),
    {
        OutOfBoundsError { x, y, dimensions }
    }

    /// The human-readable description of the failed lookup.
    pub fn message(&self) -> (r: String)
        requires
            self.dims().0 >= 1,
            self.dims().1 >= 1,
        ensures
            r@ == oob_message(self.coords(), self.dims()),
    {
        let mut out = String::new();
        out.append("Tried to access x=");
        out.append(dec_string(self.x).as_str());
        out.append(" and y=");
        out.append(dec_string(self.y).as_str());
        out.append(" but max x=");
        out.append(dec_string(self.dimensions.0 - 1).as_str());
        out.append(" and max y=");
        out.append(dec_string(self.dimensions.1 - 1).as_str());
        assert(out@ =~= oob_message(self.coords(), self.dims()));
        out
    }
}

/// The text of the error raised for a lookup at `c` in a matrix of
/// dimensions `d`.
pub open spec fn oob_message(c: (int, int), d: (int, int)) -> Seq<char> {
    "Tried to access x="@ + dec_rep(c.0 as nat) + " and y="@ + dec_rep(c.1 as nat)
        + " but max x="@ + dec_rep((d.0 - 1) as nat) + " and max y="@ + dec_rep((d.1 - 1) as nat)
}

/// A character grid of fixed dimensions over a flat row-major buffer.
/// Reads inside the declared dimensions but beyond the buffer yield the
/// padding character; the buffer is never resized.
pub struct TransMatrix {
    array: Vec<char>,
    dimensions: (usize, usize),
}

impl TransMatrix {
    /// The characters backing the grid, row by row.
    pub closed spec fn cells(self) -> Seq<char> {
        self.array@
    }

    pub closed spec fn spec_width(self) -> int {
        self.dimensions.0 as int
    }

    pub closed spec fn spec_height(self) -> int {
        self.dimensions.1 as int
    }

    /// Dimensions are positive and the grid's capacity is addressable.
    pub closed spec fn wf(self) -> bool {
        &&& self.spec_width() >= 1
        &&& self.spec_height() >= 1
        &&& self.spec_width() * self.spec_height() <= usize::MAX as int
    }

    pub(crate) fn make(array: Vec<char>, dimensions: (usize, usize)) -> (m: TransMatrix)
        requires
            dimensions.0 >= 1,
            dimensions.1 >= 1,
            dimensions.0 * dimensions.1 <= usize::MAX,
        ensures
            m.wf(),
            m.cells() == array@,
            m.spec_width() == dimensions.0 as int,
            m.spec_height() == dimensions.1 as int,
    {
        TransMatrix { array, dimensions }
    }

    /// The character at the given `(x, y)` coordinate.  Fails with
    /// `OutOfBoundsError` exactly when `x` or `y` lies outside the
    /// declared dimensions; a coordinate inside the dimensions but beyond
    /// the stored text yields the padding character.
    pub fn get_char(&self, input: (usize, usize)) -> (r: Result<char, OutOfBoundsError>)
        requires
            self.wf(),
        ensures
            match r {
                Ok(c) => input.0 < self.spec_width() && input.1 < self.spec_height() && c
                    == cell_at(self.cells(), self.spec_width(), input.0 as int, input.1 as int),
                Err(e) => (input.0 >= self.spec_width() || input.1 >= self.spec_height())
                    && e.coords() == (input.0 as int, input.1 as int) && e.dims() == (
                self.spec_width(),
                self.spec_height(),
                ),
            },
    {
        let (x, y) = input;
        if x > self.dimensions.0 - 1 || y > self.dimensions.1 - 1 {
            Err(OutOfBoundsError::make(x, y, self.dimensions))
        } else {
            proof {
                assert(x + y * self.dimensions.0 < self.dimensions.0 * self.dimensions.1)
                    by (nonlinear_arith)
                    requires
                        x < self.dimensions.0,
                        y < self.dimensions.1,
                ;
            }
            let target_index = x + y * self.dimensions.0;
            if target_index < self.array.len() {
                Ok(self.array[target_index])
            } else {
                Ok('X')
            }
        }
    }
}

} // verus!
