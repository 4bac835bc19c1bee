//! Damage overlays: the crack texture keys, the texture lookup key of a
//! face, and the per-channel alpha compositing that blends a crack overlay
//! onto a face texture.

use vstd::prelude::*;

use crate::blocs::{BlocType, Direction, bloc_type_name_spec, face_name_spec};

verus! {

/// Number of crack overlay stages.
pub const CRACK_STAGES: usize = 5;

/// The texture lookup key of a face: `"<type-name>/<face-name>.png"`, the
/// form the render sink expects.
pub fn texture_key(typ: BlocType, dir: Direction) -> (r: String)
    ensures
        r@ == bloc_type_name_spec(typ) + "/"@ + face_name_spec(dir) + ".png"@,
{
    let mut s = String::new();
    s.append(typ.name());
    s.append("/");
    s.append(dir.face_to_render_name());
    s.append(".png");
    proof {
        assert(s@ =~= bloc_type_name_spec(typ) + "/"@ + face_name_spec(dir) + ".png"@);
    }
    s
}

pub open spec fn crack_key_spec(n: int) -> Seq<char> {
    if n == 1 {
        "cracks/crack_1.png"@
    } else if n == 2 {
        "cracks/crack_2.png"@
    } else if n == 3 {
        "cracks/crack_3.png"@
    } else if n == 4 {
        "cracks/crack_4.png"@
    } else {
        "cracks/crack_5.png"@
    }
}

/// The crack overlay key of damage stage `n` (1 to 5):
/// `"cracks/crack_<n>.png"`.
pub fn crack_texture_key(n: u8) -> (r: &'static str)
    requires
        1 <= n <= CRACK_STAGES,
    ensures
        r@ == crack_key_spec(n as int),
{
    match n {
        1 => "cracks/crack_1.png",
        2 => "cracks/crack_2.png",
        3 => "cracks/crack_3.png",
        4 => "cracks/crack_4.png",
        _ => "cracks/crack_5.png",
    }
}

/// One channel alpha-blended: the base weighted by the overlay's
/// transparency plus the overlay weighted by its alpha, in 1/255 units.
pub open spec fn blend_channel_spec(base: int, overlay: int, alpha: int) -> int {
    (base * (255 - alpha) + overlay * alpha) / 255
}

/// Blends one color channel of an overlay onto a base channel.
pub fn blend_channel(base: u8, overlay: u8, alpha: u8) -> (r: u8)
    ensures
        r == blend_channel_spec(base as int, overlay as int, alpha as int),
{
    proof {
        assert(0 <= (base as int) * (255 - alpha as int) + (overlay as int) * (alpha as int)
            <= 65025 && 0 <= ((base as int) * (255 - alpha as int) + (overlay as int) * (
        alpha as int)) / 255 <= 255) by (nonlinear_arith)
            requires
                base <= 255,
                overlay <= 255,
                alpha <= 255,
        ;
    }
    (((base as u16) * (255 - alpha as u16) + (overlay as u16) * (alpha as u16)) / 255) as u8
}

/// What compositing a crack overlay onto a face texture leaves at byte
/// `i` of the RGBA pixel data: the three color channels blended by the
/// overlay pixel's alpha, the base alpha kept.
pub open spec fn composite_at_spec(base: Seq<u8>, overlay: Seq<u8>, i: int) -> int {
    if i % 4 == 3 {
        base[i] as int
    } else {
        blend_channel_spec(
            base[i] as int,
            overlay[i] as int,
            overlay[4 * (i / 4) + 3] as int,
        )
    }
}

/// Composites a crack overlay onto a face texture, pixel by pixel: each
/// color channel is alpha-blended with the overlay's alpha, the base
/// alpha channel stays.
pub fn composite_crack(base: &Vec<u8>, overlay: &Vec<u8>) -> (r: Vec<u8>)
    requires
        base@.len() == overlay@.len(),
        base@.len() % 4 == 0,
    ensures
        r@.len() == base@.len(),
        forall|i: int|
            0 <= i < base@.len() ==> #[trigger] r@[i] == composite_at_spec(base@, overlay@, i),
{
    let n = base.len();
    let mut r: Vec<u8> = Vec::new();
    let mut i: usize = 0;
    while i < n
        invariant
            n == base@.len(),
            base@.len() == overlay@.len(),
            base@.len() % 4 == 0,
            i <= n,
            r@.len() == i,
            forall|j: int|
                0 <= j < i ==> #[trigger] r@[j] == composite_at_spec(base@, overlay@, j),
        decreases n - i,
    {
        let v = if i % 4 == 3 {
            base[i]
        } else {
            let alpha_idx = 4 * (i / 4) + 3;
            proof {
                assert(4 * (i as int / 4) + 3 < n) by (nonlinear_arith)
                    requires
                        0 <= i < n,
                        n % 4 == 0,
                ;
            }
            blend_channel(base[i], overlay[i], overlay[alpha_idx])
        };
        r.push(v);
        i = i + 1;
    }
    r
}

} // verus!
