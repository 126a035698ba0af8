//! The runtime image loader: decodes a compiled image file into its
//! dimensions and flat RGB samples, and widens RGB rows to RGBA with an
//! opaque alpha for upload.

use vstd::prelude::*;

use crate::codec::parse_u32_at;
use crate::cursor::Cursor;
use crate::AssetError;

verus! {

pub ghost struct ImageDataView {
    pub width: u32,
    pub height: u32,
    pub rgb: Seq<u8>,
}

/// A decoded image: its dimensions and `width * height` RGB samples,
/// row-major, three bytes each.
pub struct ImageData {
    pub width: u32,
    pub height: u32,
    pub rgb: Vec<u8>,
}

impl View for ImageData {
    type V = ImageDataView;

    open spec fn view(&self) -> ImageDataView {
        ImageDataView { width: self.width, height: self.height, rgb: self.rgb@ }
    }
}

/// A whole compiled image file: the magic byte, two dimensions, then
/// exactly `width * height * 3` RGB bytes. Trailing bytes are ignored.
pub open spec fn parse_image(s: Seq<u8>) -> Result<ImageDataView, AssetError> {
    if s.len() < 1 {
        Err(AssetError::Truncated)
    } else if s[0] != 'I' as u8 {
        Err(AssetError::BadMagic)
    } else {
        match parse_u32_at(s, 1) {
            Err(e) => Err(e),
            Ok((width, p1)) => match parse_u32_at(s, p1) {
                Err(e) => Err(e),
                Ok((height, p2)) => if p2 + 3 * (width as int) * (height as int) <= s.len() {
                    Ok(ImageDataView {
                        width,
                        height,
                        rgb: s.subrange(p2, p2 + 3 * (width as int) * (height as int)),
                    })
                } else {
                    Err(AssetError::Truncated)
                },
            },
        }
    }
}

impl ImageData {
    /// Decodes a compiled image from its bytes.
    #[verifier::loop_isolation(false)]
    pub fn load(bytes: Vec<u8>) -> (r: Result<ImageData, AssetError>)
        ensures
            match r {
                Ok(img) => parse_image(bytes@) == Ok::<ImageDataView, AssetError>(img@)
                    && img@.rgb.len() == 3 * (img@.width as int) * (img@.height as int),
                Err(e) => parse_image(bytes@) == Err::<ImageDataView, AssetError>(e),
            },
    {
        let ghost s = bytes@;
        let mut cur = Cursor::new(bytes);
        let magic = match cur.read_u8() {
            Ok(v) => v,
            Err(e) => {
                return Err(e);
            },
        };
        if magic != 'I' as u8 {
            return Err(AssetError::BadMagic);
        }
        let width = match cur.read_u32() {
            Ok(v) => v,
            Err(e) => {
                return Err(e);
            },
        };
        let height = match cur.read_u32() {
            Ok(v) => v,
            Err(e) => {
                return Err(e);
            },
        };
        let ghost p2 = cur.pos();
        assert(parse_u32_at(s, 1) == Ok::<_, AssetError>((width, 5int)));
        assert(parse_u32_at(s, 5) == Ok::<_, AssetError>((height, 9int)));
        proof {
            assert((width as int) * (height as int) <= 0xffff_ffff * 0xffff_ffff)
                by (nonlinear_arith)
                requires width <= 0xffff_ffffu32 && height <= 0xffff_ffffu32;
        }
        let wh: u64 = (width as u64) * (height as u64);
        let left: u64 = (bytes_left(&cur)) as u64;
        proof {
            assert(wh == (width as int) * (height as int));
            assert(3 * ((width as int) * (height as int)) == 3 * (width as int) * (height as int))
                by (nonlinear_arith);
            assert(left == s.len() - p2);
        }
        if 3u128 * (wh as u128) > left as u128 {
            proof {
                assert(p2 + 3 * (width as int) * (height as int) > s.len());
            }
            return Err(AssetError::Truncated);
        }
        let count = (3u64 * wh) as usize;
        proof {
            assert(count == 3 * (width as int) * (height as int));
        }
        let mut rgb: Vec<u8> = Vec::new();
        let mut k: usize = 0;
        while k < count
            invariant
                k <= count,
                cur.wf(),
                cur.bytes() == s,
                cur.pos() == p2 + k,
                count == 3 * (width as int) * (height as int),
                p2 + count <= s.len(),
                rgb@ == s.subrange(p2, p2 + k),
            decreases count - k,
        {
            let v = match cur.read_u8() {
                Ok(v) => v,
                Err(e) => {
                    proof {
                        assert(false);
                    }
                    return Err(e);
                },
            };
            rgb.push(v);
            assert(rgb@ =~= s.subrange(p2, p2 + k + 1));
            k += 1;
        }
        let img = ImageData { width, height, rgb };
        assert(parse_image(s) == Ok::<ImageDataView, AssetError>(img@));
        Ok(img)
    }
}

/// How many bytes a cursor still has to read.
fn bytes_left(cur: &Cursor) -> (r: usize)
    requires
        cur.wf(),
    ensures
        r == cur.remaining(),
{
    cur.len() - cur.position()
}

/// RGB samples widened to RGBA: each pixel keeps its three samples and
/// gains an opaque alpha byte.
pub open spec fn rgba_of(rgb: Seq<u8>) -> Seq<u8>
    decreases rgb.len(),
{
    if rgb.len() < 3 {
        Seq::<u8>::empty()
    } else {
        seq![rgb[0], rgb[1], rgb[2], 255u8] + rgba_of(rgb.skip(3))
    }
}

/// Widens a flat RGB buffer to RGBA with opaque alpha, pixel by pixel.
#[verifier::loop_isolation(false)]
#[verifier::rlimit(60)]
#[verifier::spinoff_prover]
pub fn rgba_from_rgb(rgb: &Vec<u8>) -> (r: Vec<u8>)
    ensures
        r@ == rgba_of(rgb@),
{
    let mut r: Vec<u8> = Vec::new();
    let mut k: usize = 0;
    proof {
        assert(rgb@.skip(0) =~= rgb@);
    }
    while rgb.len() - k >= 3
        invariant
            k <= rgb@.len(),
            rgba_of(rgb@) == r@ + rgba_of(rgb@.skip(k as int)),
        decreases rgb@.len() - k,
    {
        let ghost rem = rgb@.skip(k as int);
        r.push(rgb[k]);
        r.push(rgb[k + 1]);
        r.push(rgb[k + 2]);
        r.push(255);
        proof {
            assert(rem.len() >= 3);
            assert(rem[0] == rgb@[k as int]);
            assert(rem[1] == rgb@[k as int + 1]);
            assert(rem[2] == rgb@[k as int + 2]);
            assert(rem.skip(3) =~= rgb@.skip(k as int + 3));
            assert(rgba_of(rem) == seq![rem[0], rem[1], rem[2], 255u8] + rgba_of(rem.skip(3)));
        }
        k += 3;
    }
    proof {
        assert(rgba_of(rgb@.skip(k as int)) =~= Seq::<u8>::empty());
        assert(r@ =~= rgba_of(rgb@));
    }
    r
}

} // verus!
