//! The catalogue of patterns that can be stamped onto a grid.

use vstd::prelude::*;

use crate::bits::{bit_set, byte_len};

verus! {

/// A rectangular bitmap, packed row by row with the most significant bit of
/// each byte first, and the offset of its first cell from the point it is
/// stamped at.
pub struct Shape {
    pub row_offset: i32,
    pub col_offset: i32,
    pub width: u32,
    pub height: u32,
    pub pattern: Vec<u8>,
}

/// A shape as mathematical values.
pub struct ShapeView {
    pub row_offset: int,
    pub col_offset: int,
    pub width: nat,
    pub height: nat,
    pub pattern: Seq<u8>,
}

impl ShapeView {
    /// Number of cells in the bitmap.
    pub open spec fn size(&self) -> nat {
        self.width * self.height
    }

    /// Bit `k` of the bitmap, most significant bit of each byte first.
    pub open spec fn bit(&self, k: int) -> bool {
        bit_set(self.pattern[k / 8], (7 - k % 8) as u8)
    }

    /// The bitmap has exactly the bytes that its cells need, and its cells can
    /// be counted in a `u32`.
    pub open spec fn wf(&self) -> bool {
        &&& self.size() <= u32::MAX
        &&& self.pattern.len() == byte_len(self.size())
    }
}

impl View for Shape {
    type V = ShapeView;

    open spec fn view(&self) -> ShapeView {
        ShapeView {
            row_offset: self.row_offset as int,
            col_offset: self.col_offset as int,
            width: self.width as nat,
            height: self.height as nat,
            pattern: self.pattern@,
        }
    }
}

/// The patterns that a caller can stamp.
#[derive(Clone, Copy, Debug)]
pub enum DrawObject {
    Spaceship,
    Glider,
    Pulsar,
}

/// A lightweight spaceship family member, 13 rows of 10 cells.
pub open spec fn spaceship_view() -> ShapeView {
    ShapeView {
        row_offset: -6,
        col_offset: -4,
        width: 10,
        height: 13,
        pattern: seq![
            0b00001100u8, 0b00000111u8, 0b10000000u8, 0b00000000u8, 0b11111100u8,
            0b00011110u8, 0b00000000u8, 0b00000011u8, 0b00110011u8, 0b01001011u8,
            0b00010010u8, 0b00000000u8, 0b00000000u8, 0b00000000u8, 0b00110000u8,
            0b00001100u8, 0b00000000u8,
        ],
    }
}

/// The period-three pulsar, 13 by 13, centred on the stamp point.
pub open spec fn pulsar_view() -> ShapeView {
    ShapeView {
        row_offset: -6,
        col_offset: -6,
        width: 13,
        height: 13,
        pattern: seq![
            0b00111000u8, 0b11100000u8, 0b00000000u8, 0b00100001u8, 0b01000011u8,
            0b00001010u8, 0b00011000u8, 0b01010000u8, 0b10011100u8, 0b01110000u8,
            0b00000000u8, 0b00000111u8, 0b00011100u8, 0b10000101u8, 0b00001100u8,
            0b00101000u8, 0b01100001u8, 0b01000010u8, 0b00000000u8, 0b00000011u8,
            0b10001110u8, 0b00000000u8,
        ],
    }
}

/// The glider, 3 by 3, centred on the stamp point.
pub open spec fn glider_view() -> ShapeView {
    ShapeView {
        row_offset: -1,
        col_offset: -1,
        width: 3,
        height: 3,
        pattern: seq![0b00110101u8, 0b10000000u8],
    }
}

/// The eight cells around a centre cell, the centre itself left out.
pub open spec fn neighbors_view() -> ShapeView {
    ShapeView {
        row_offset: -1,
        col_offset: -1,
        width: 3,
        height: 3,
        pattern: seq![0b11110111u8, 0b10000000u8],
    }
}

impl DrawObject {
    /// The shape that this name stands for.
    pub open spec fn spec_shape(self) -> ShapeView {
        match self {
            DrawObject::Spaceship => spaceship_view(),
            DrawObject::Glider => glider_view(),
            DrawObject::Pulsar => pulsar_view(),
        }
    }

    /// Builds the shape that this name stands for.
    pub fn shape(&self) -> (s: Shape)
        ensures
            s@ == self.spec_shape(),
            s@.wf(),
    {
        match self {
            DrawObject::Spaceship => Shape::spaceship(),
            DrawObject::Glider => Shape::glider(),
            DrawObject::Pulsar => Shape::pulsar(),
        }
    }
}

impl Shape {
    pub fn spaceship() -> (s: Shape)
        ensures
            s@ == spaceship_view(),
            s@.wf(),
    {
        let pattern = vec![
            0b00001100u8, 0b00000111u8, 0b10000000u8, 0b00000000u8, 0b11111100u8,
            0b00011110u8, 0b00000000u8, 0b00000011u8, 0b00110011u8, 0b01001011u8,
            0b00010010u8, 0b00000000u8, 0b00000000u8, 0b00000000u8, 0b00110000u8,
            0b00001100u8, 0b00000000u8,
        ];
        assert(pattern@ =~= spaceship_view().pattern);
        assert(pattern@.len() == 17);
        let s = Shape { row_offset: -6, col_offset: -4, width: 10, height: 13, pattern };
        assert(s@.size() == 130) by (nonlinear_arith) requires s.width == 10 && s.height == 13;
        s
    }

    pub fn pulsar() -> (s: Shape)
        ensures
            s@ == pulsar_view(),
            s@.wf(),
    {
        let pattern = vec![
            0b00111000u8, 0b11100000u8, 0b00000000u8, 0b00100001u8, 0b01000011u8,
            0b00001010u8, 0b00011000u8, 0b01010000u8, 0b10011100u8, 0b01110000u8,
            0b00000000u8, 0b00000111u8, 0b00011100u8, 0b10000101u8, 0b00001100u8,
            0b00101000u8, 0b01100001u8, 0b01000010u8, 0b00000000u8, 0b00000011u8,
            0b10001110u8, 0b00000000u8,
        ];
        assert(pattern@ =~= pulsar_view().pattern);
        assert(pattern@.len() == 22);
        let s = Shape { row_offset: -6, col_offset: -6, width: 13, height: 13, pattern };
        assert(s@.size() == 169) by (nonlinear_arith) requires s.width == 13 && s.height == 13;
        s
    }

    pub fn glider() -> (s: Shape)
        ensures
            s@ == glider_view(),
            s@.wf(),
    {
        let pattern = vec![0b00110101u8, 0b10000000u8];
        assert(pattern@ =~= glider_view().pattern);
        Shape { row_offset: -1, col_offset: -1, width: 3, height: 3, pattern }
    }

    /// The mask of the eight neighbours, used to count live neighbours.
    pub fn neighbors() -> (s: Shape)
        ensures
            s@ == neighbors_view(),
            s@.wf(),
    {
        let pattern = vec![0b11110111u8, 0b10000000u8];
        assert(pattern@ =~= neighbors_view().pattern);
        Shape { row_offset: -1, col_offset: -1, width: 3, height: 3, pattern }
    }

    /// Reads bit `k` of the bitmap.
    pub fn bit(&self, k: u32) -> (r: bool)
        requires
            self@.wf(),
            k < self@.size(),
        ensures
            r == self@.bit(k as int),
    {
        let m = (k % 8) as u8;
        let b = self.pattern[(k / 8) as usize];
        proof {
            lemma_msb_first(b, m);
        }
        b & (128u8 >> m) != 0
    }
}

proof fn lemma_msb_first(b: u8, m: u8)
    by (bit_vector)
    requires
        m < 8,
    ensures
        (b & (128u8 >> m) != 0) == bit_set(b, (7 - m) as u8),
{
}

} // verus!
