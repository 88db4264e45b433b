use vstd::prelude::*;

verus! {

/// The category of GPU program a material asks for, and with it the vertex
/// attributes the material has to carry.
#[derive(Clone, Copy, Debug, PartialEq, Eq, Hash, Structural)]
pub enum ShaderType {
    Simple,
    Color,
    VertexColor,
    Texture,
    Wireframe,
}

/// `n` is a power of two: 1, 2, 4, 8, ...
pub open spec fn is_pow2(n: nat) -> bool
    decreases n,
{
    if n == 1 {
        true
    } else if n == 0 || n % 2 == 1 {
        false
    } else {
        is_pow2(n / 2)
    }
}

/// Whether a texture side of `val` pixels allows mipmaps (a power of two).
/// Zero is not a power of two.
pub fn is_power_of_2(val: u32) -> (r: bool)
    ensures
        r == is_pow2(val as nat),
{
    let mut v: u32 = val;
    while v > 1 && v % 2 == 0
        invariant
            is_pow2(v as nat) == is_pow2(val as nat),
        decreases v,
    {
        v = v / 2;
    }
    v == 1
}

} // verus!
