//! QR codes: drawing one for a piece of data with the `qrcode` crate, and
//! taking the data out of what was read from an image.
use vstd::prelude::*;

verus! {

/// A grey image, one byte per pixel, row after row.
pub struct GrayImage {
    pub width: u32,
    pub height: u32,
    pub pixels: Vec<u8>,
}

/// The image holds exactly one byte for each of its pixels.
pub open spec fn gray_image_wf(img: &GrayImage) -> bool {
    img.pixels@.len() == img.width * img.height
}

/// The image (width, height, pixels) that `qrcode` draws for `data`: the
/// code of `QrCode::new(data)`, rendered in grey with `render().build()`;
/// `None` when no code can hold the data.
pub uninterp spec fn qr_rendered(data: Seq<u8>) -> Option<(u32, u32, Seq<u8>)>;

/// Draws the QR code for `data`: `qrcode::QrCode::new(data)`, then
/// `render::<image::Luma<u8>>().build()`.
///
/// Claimed: the result is the image named `qr_rendered` of the data; it is
/// square, holds one byte per pixel, and every pixel is black (0) or white
/// (255), as the renderer fills a white canvas of that size and paints dark
/// modules black.
///
/// Left unsaid: for which data sizes a code is sure to exist. `QrCode::new`
/// fails with `DataTooLong` when the segments chosen by the greedy merging in
/// `bits::encode_auto` do not fit a version-40 code at level M; the source
/// does not plainly show a byte count below which they always fit.
#[verifier::external_body]
fn render_qr(data: &[u8]) -> (res: Option<GrayImage>)
    ensures
        res matches Some(img) ==> qr_rendered(data@) == Some((img.width, img.height, img.pixels@)),
        res matches Some(img) ==> gray_image_wf(&img) && img.width == img.height,
        res matches Some(img) ==> (forall|i: int|
            0 <= i < img.pixels@.len() ==> #[trigger] img.pixels@[i] == 0 || img.pixels@[i] == 255),
        res is None ==> qr_rendered(data@) is None,
{
    match qrcode::QrCode::new(data) {
        Ok(code) => {
            let img = code.render::<image::Luma<u8>>().build();
            Some(GrayImage { width: img.width(), height: img.height(), pixels: img.into_raw() })
        },
        Err(_) => None,
    }
}

/// The views of the payloads of a list of codes.
pub open spec fn payload_views(v: Seq<Option<Vec<u8>>>) -> Seq<Option<Seq<u8>>> {
    Seq::new(
        v.len(),
        |i: int|
            match v[i] {
                Some(p) => Some(p@),
                None => None,
            },
    )
}

/// The bytes of the first code found, when there is one, it decodes, and it
/// holds at least one byte.
pub open spec fn first_payload(payloads: Seq<Option<Seq<u8>>>) -> Option<Seq<u8>> {
    if payloads.len() > 0 && payloads[0] is Some && payloads[0].unwrap().len() > 0 {
        payloads[0]
    } else {
        None
    }
}

/// Law: when the first code read from the image decoded to a non-empty
/// payload, that payload is the data, byte for byte; otherwise there is no
/// data.
pub proof fn lemma_first_payload_is_the_first_code(ps: Seq<Option<Seq<u8>>>)
    ensures
        (ps.len() > 0 && ps[0] is Some && ps[0].unwrap().len() > 0) ==> first_payload(ps) == Some(ps[0].unwrap()),
        !(ps.len() > 0 && ps[0] is Some && ps[0].unwrap().len() > 0) ==> first_payload(ps) is None,
{
}

/// The bytes of the first code in a list of codes read from an image (see
/// `first_payload`).
pub fn first_grid_payload(payloads: Vec<Option<Vec<u8>>>) -> (res: Option<Vec<u8>>)
    ensures
        match res {
            Some(v) => first_payload(payload_views(payloads@)) == Some(v@),
            None => first_payload(payload_views(payloads@)) is None,
        },
{
    let mut payloads = payloads;
    let ghost views = payload_views(payloads@);
    if payloads.len() == 0 {
        return None;
    }
    let first = payloads.swap_remove(0);
    assert(views[0] == match first {
        Some(p) => Some(p@),
        None => None::<Seq<u8>>,
    });
    match first {
        Some(data) => {
            if data.len() == 0 {
                None
            } else {
                Some(data)
            }
        },
        None => None,
    }
}

/// The data of the QR code read from an image: the bytes of the first code
/// found. `grids` lists what was read of each code that the reader found in
/// the image (`None` where decoding failed).
///
/// The first code must be present, decode, and hold at least one byte.
pub fn decode_img_with_data(grids: Vec<Option<Vec<u8>>>) -> (res: Vec<u8>)
    requires
        first_payload(payload_views(grids@)) is Some,
    ensures
        res@ == first_payload(payload_views(grids@)).unwrap(),
{
    match first_grid_payload(grids) {
        Some(data) => data,
        None => Vec::new(),
    }
}

/// The message of a code that does not give back its data.
pub open spec fn mismatch_text() -> Seq<char> {
    "AAAAAAAH"@
}

/// Checks that the QR code read from an image gives back `encoded_data`:
/// `Ok` when it does, an error otherwise. `grids` lists what was read of each
/// code found in the image, as for `decode_img_with_data`.
///
/// The first code must be present, decode, and hold at least one byte.
pub fn debug_data(encoded_data: &[u8], grids: Vec<Option<Vec<u8>>>) -> (res: Result<(), String>)
    requires
        first_payload(payload_views(grids@)) is Some,
    ensures
        res is Ok <==> encoded_data@ == first_payload(payload_views(grids@)).unwrap(),
        res matches Err(e) ==> e@ == mismatch_text(),
{
    let decoded = decode_img_with_data(grids);
    let mut same = encoded_data.len() == decoded.len();
    let mut i: usize = 0;
    while same && i < decoded.len()
        invariant
            i <= decoded@.len(),
            same ==> encoded_data@.len() == decoded@.len(),
            same ==> encoded_data@.take(i as int) == decoded@.take(i as int),
            !same ==> encoded_data@ != decoded@,
        decreases decoded@.len() - i,
    {
        if encoded_data[i] != decoded[i] {
            same = false;
        } else {
            assert(encoded_data@.take(i + 1) =~= encoded_data@.take(i as int).push(encoded_data@[i as int]));
            assert(decoded@.take(i + 1) =~= decoded@.take(i as int).push(decoded@[i as int]));
        }
        i = i + 1;
    }
    if same {
        assert(encoded_data@ =~= encoded_data@.take(i as int));
        assert(decoded@ =~= decoded@.take(i as int));
    }
    if !same {
        proof {
            reveal_strlit("AAAAAAAH");
        }
        return Err(String::from_str("AAAAAAAH"));
    }
    Ok(())
}

/// A QR code image to be written: its path and its pixels.
pub struct QrFile {
    pub path: String,
    pub image: GrayImage,
}

/// Draws the QR code for one piece of data and names its file
/// `folder/N.png`, `N` being `qr_number`; `None` when no QR code can hold the
/// data.
pub fn create_qr_code_from_data(data: &[u8], qr_number: u32, folder: &str) -> (res: Option<QrFile>)
    ensures
        res matches Some(f) ==> f.path@ == folder@ + seq!['/'] + crate::frame_names::frame_file_name_spec(
            qr_number,
        ),
        res matches Some(f) ==> qr_rendered(data@) == Some((f.image.width, f.image.height, f.image.pixels@)),
        res matches Some(f) ==> gray_image_wf(&f.image),
        res is None <==> qr_rendered(data@) is None,
{
    match render_qr(data) {
        Some(image) => {
            let path = crate::frame_names::qr_file_path(folder, qr_number);
            Some(QrFile { path, image })
        },
        None => None,
    }
}

} // verus!
