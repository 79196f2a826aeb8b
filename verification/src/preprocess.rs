use vstd::prelude::*;
use vstd::arithmetic::div_mod::lemma_fundamental_div_mod_converse;
use crate::errors::Error;

verus! {

/// Side length of the square input grid the network expects.
pub const INPUT_SIDE: u32 = 128;

/// Pixels in the input grid: `INPUT_SIDE` squared.
pub const INPUT_PIXELS: usize = 16384;

/// Bytes in the input grid: three channels per pixel.
pub const INPUT_LEN: usize = 49152;

/// `image::ImageError`, the decoder's error type, declared so that the
/// trusted wrapper below can return it.
#[verifier::external_type_specification]
#[verifier::external_body]
pub struct ExImageError(image::ImageError);

/// Whether the decoder accepts `bytes` as an encoded image.
pub uninterp spec fn decode_ok(bytes: Seq<u8>) -> bool;

/// The interleaved RGB bytes of the image encoded in `bytes`, decoded and
/// resized to `w` x `h` with the triangle filter.  Decoding and resizing are
/// pure computations, so the result is a function of the arguments alone.
pub uninterp spec fn resized_rgb(bytes: Seq<u8>, w: u32, h: u32) -> Seq<u8>;

/// Relies on `image::load_from_memory`, `DynamicImage::to_rgb8` and
/// `image::imageops::resize` with `FilterType::Triangle`: exactly the inputs
/// the decoder refuses come back as `Err`, and a decoded image is resized to
/// `w` x `h`, three bytes per pixel, deterministically in the input bytes.
#[verifier::external_body]
fn decode_and_resize(bytes: &[u8], w: u32, h: u32) -> (r: Result<Vec<u8>, image::ImageError>)
    ensures
        r is Ok <==> decode_ok(bytes@),
        r is Ok ==> r->Ok_0@ == resized_rgb(bytes@, w, h),
        r is Ok ==> r->Ok_0@.len() == 3 * (w as int) * (h as int),
{
    let img = image::load_from_memory(bytes)?.to_rgb8();
    let resized = image::imageops::resize(&img, w, h, image::imageops::FilterType::Triangle);
    Ok(resized.into_raw())
}

/// The channel-first (planar) reordering of an interleaved RGB byte grid of
/// `INPUT_PIXELS` pixels: plane `c` of the result holds channel `c` of every
/// pixel, in row order.
pub open spec fn chw_of(p: Seq<u8>) -> Seq<u8> {
    Seq::new(p.len(), |i: int| p[3 * (i % (INPUT_PIXELS as int)) + i / (INPUT_PIXELS as int)])
}

/// Reorder interleaved RGB bytes into the channel-first layout.
pub fn channel_first(pixels: &Vec<u8>) -> (r: Vec<u8>)
    requires
        pixels@.len() == INPUT_LEN,
    ensures
        r@ == chw_of(pixels@),
        r@.len() == INPUT_LEN,
{
    proof {
        assert(INPUT_PIXELS == 16384);
        assert(INPUT_LEN == 49152);
    }
    let mut out: Vec<u8> = Vec::new();
    let mut c: usize = 0;
    while c < 3
        invariant
            c <= 3,
            INPUT_PIXELS == 16384,
            INPUT_LEN == 49152,
            pixels@.len() == INPUT_LEN,
            out@.len() == c * INPUT_PIXELS,
            forall|j: int| 0 <= j < out@.len() ==> out@[j] == chw_of(pixels@)[j],
        decreases 3 - c,
    {
        let mut p: usize = 0;
        while p < INPUT_PIXELS
            invariant
                c < 3,
                INPUT_PIXELS == 16384,
                INPUT_LEN == 49152,
                p <= INPUT_PIXELS,
                pixels@.len() == INPUT_LEN,
                out@.len() == c * INPUT_PIXELS + p,
                forall|j: int| 0 <= j < out@.len() ==> out@[j] == chw_of(pixels@)[j],
            decreases INPUT_PIXELS - p,
        {
            let j: usize = c * INPUT_PIXELS + p;
            proof {
                lemma_fundamental_div_mod_converse(
                    j as int,
                    INPUT_PIXELS as int,
                    c as int,
                    p as int,
                );
                assert(chw_of(pixels@)[j as int] == pixels@[3 * (p as int) + c as int]);
            }
            out.push(pixels[3 * p + c]);
            p = p + 1;
        }
        c = c + 1;
    }
    proof {
        assert(out@ =~= chw_of(pixels@));
    }
    out
}

/// Decode an encoded image, resize it to the network's input grid, and hand
/// back its bytes in the channel-first layout the network expects.  Exactly
/// the inputs the decoder refuses are rejected, with `Error::Decode`.
pub fn preprocess(image_bytes: &[u8]) -> (r: Result<Vec<u8>, Error>)
    ensures
        r is Ok <==> decode_ok(image_bytes@),
        r is Ok ==> r->Ok_0@ == chw_of(resized_rgb(image_bytes@, INPUT_SIDE, INPUT_SIDE)),
        r is Ok ==> r->Ok_0@.len() == INPUT_LEN,
        r is Err ==> r->Err_0 == Error::Decode,
{
    match decode_and_resize(image_bytes, INPUT_SIDE, INPUT_SIDE) {
        Ok(pixels) => Ok(channel_first(&pixels)),
        Err(_) => Err(Error::Decode),
    }
}

/// Preprocessing is deterministic: the resized grid, and with it the tensor
/// handed to the network, depends on the input bytes alone, never on any
/// hidden state.
pub proof fn lemma_preprocess_deterministic(a: Seq<u8>, b: Seq<u8>)
    requires
        a == b,
    ensures
        resized_rgb(a, INPUT_SIDE, INPUT_SIDE) == resized_rgb(b, INPUT_SIDE, INPUT_SIDE),
        chw_of(resized_rgb(a, INPUT_SIDE, INPUT_SIDE)) == chw_of(resized_rgb(b, INPUT_SIDE, INPUT_SIDE)),
{
}

} // verus!
