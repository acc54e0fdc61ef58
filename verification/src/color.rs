use vstd::prelude::*;

verus! {

/// An RGBA colour with one byte per channel.
#[derive(Clone, Copy, Debug, PartialEq, Eq, Structural)]
pub struct Color {
    pub r: u8,
    pub g: u8,
    pub b: u8,
    pub a: u8,
}

impl Color {
    pub fn new(r: u8, g: u8, b: u8, a: u8) -> (c: Color)
        ensures
            c == (Color { r, g, b, a }),
    {
        Color { r, g, b, a }
    }

    /// The same colour with its alpha channel forced to fully opaque.
    pub open spec fn opaque(self) -> Color {
        Color { r: self.r, g: self.g, b: self.b, a: 255 }
    }
}

/// Channel `k` of a colour: red, green, blue, then alpha.
pub open spec fn channel(c: Color, k: int) -> u8 {
    if k == 0 {
        c.r
    } else if k == 1 {
        c.g
    } else if k == 2 {
        c.b
    } else {
        c.a
    }
}

/// The byte sequence of the colours as RGBA8, four bytes per colour, in order.
pub open spec fn rgba_of(colors: Seq<Color>) -> Seq<u8> {
    Seq::new(colors.len() * 4, |i: int| channel(colors[i / 4], i % 4))
}

/// The colours laid out as RGBA8 bytes, four per colour, in order.
pub fn rgba_bytes(colors: &[Color]) -> (bytes: Vec<u8>)
    requires
        colors@.len() * 4 <= usize::MAX,
    ensures
        bytes@ == rgba_of(colors@),
        bytes@.len() == colors@.len() * 4,
        forall|i: int|
            0 <= i < colors@.len() ==> {
                &&& #[trigger] bytes@[4 * i] == colors@[i].r
                &&& bytes@[4 * i + 1] == colors@[i].g
                &&& bytes@[4 * i + 2] == colors@[i].b
                &&& bytes@[4 * i + 3] == colors@[i].a
            },
{
    let mut bytes: Vec<u8> = Vec::with_capacity(colors.len() * 4);
    let mut i: usize = 0;
    while i < colors.len()
        invariant
            i <= colors@.len(),
            bytes@.len() == i * 4,
            forall|k: int|
                0 <= k < i ==> {
                    &&& #[trigger] bytes@[4 * k] == colors@[k].r
                    &&& bytes@[4 * k + 1] == colors@[k].g
                    &&& bytes@[4 * k + 2] == colors@[k].b
                    &&& bytes@[4 * k + 3] == colors@[k].a
                },
        decreases colors@.len() - i,
    {
        let c = colors[i];
        let ghost before = bytes@;
        bytes.push(c.r);
        bytes.push(c.g);
        bytes.push(c.b);
        bytes.push(c.a);
        proof {
            assert forall|k: int| 0 <= k < i + 1 implies {
                &&& #[trigger] bytes@[4 * k] == colors@[k].r
                &&& bytes@[4 * k + 1] == colors@[k].g
                &&& bytes@[4 * k + 2] == colors@[k].b
                &&& bytes@[4 * k + 3] == colors@[k].a
            } by {
                if k < i {
                    assert(bytes@[4 * k] == before[4 * k]);
                    assert(bytes@[4 * k + 1] == before[4 * k + 1]);
                    assert(bytes@[4 * k + 2] == before[4 * k + 2]);
                    assert(bytes@[4 * k + 3] == before[4 * k + 3]);
                }
            }
        }
        i = i + 1;
    }
    proof {
        assert forall|k: int| 0 <= k < bytes@.len() implies bytes@[k] == rgba_of(colors@)[k] by {
            let q = k / 4;
            assert(k == 4 * q + k % 4);
            assert(0 <= q < colors@.len());
            assert(bytes@[4 * q] == colors@[q].r);
        }
        assert(bytes@ =~= rgba_of(colors@));
    }
    bytes
}

} // verus!
