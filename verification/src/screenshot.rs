//! Screenshots as PNG files.

use vstd::prelude::*;
use crate::text::{dec_text, push_dec};

verus! {

/// The color type of PNG for red, green, blue and alpha samples.
pub const PNG_RGBA: u8 = 6;

/// The bit depth of PNG for samples of one byte.
pub const PNG_EIGHT_BITS: u8 = 8;

/// A picture of the screen: one byte each for red, green, blue and alpha, pixel by pixel.
#[derive(Debug)]
pub struct Frame {
    pub width: u16,
    pub height: u16,
    pub rgba: Vec<u8>,
}

/// Why a picture makes no PNG file.
#[derive(Clone, Copy, Debug, PartialEq, Eq, Structural)]
pub enum PngFault {
    ZeroWidth,
    ZeroHeight,
    /// The data has not the size of the picture.
    WrongSize { expected: usize, actual: usize },
}

/// How many samples a pixel has under the PNG color type `color`; 0 for one that is not
/// made of color or gray samples.
pub open spec fn png_samples(color: u8) -> int {
    if color == 0 {
        1
    } else if color == 2 {
        3
    } else if color == 4 {
        2
    } else if color == 6 {
        4
    } else {
        0
    }
}

/// The signature of a PNG file and its header, up to the checksum.
pub open spec fn png_start(width: u32, height: u32, color: u8, depth: u8) -> Seq<u8> {
    seq![137u8, 80, 78, 71, 13, 10, 26, 10, 0, 0, 0, 13, 73, 72, 68, 82] + big_endian(width)
        + big_endian(height) + seq![depth, color, 0, 0, 0]
}

/// The bytes of `v`, most significant first.
pub open spec fn big_endian(v: u32) -> Seq<u8> {
    seq![
        (v / 0x100_0000) as u8,
        (v / 0x1_0000 % 0x100) as u8,
        (v / 0x100 % 0x100) as u8,
        (v % 0x100) as u8,
    ]
}

/// How many bytes a picture of eight-bit samples takes.
pub open spec fn picture_size(width: u32, height: u32, color: u8) -> int {
    width * png_samples(color) * height
}

/// Whether `len` bytes make a picture that has sides.
pub open spec fn makes_png(width: u32, height: u32, color: u8, len: nat) -> bool {
    width > 0 && height > 0 && len == picture_size(width, height, color)
}

/// Whether `bytes` start as a PNG file of a picture of this kind does, if it has sides.
pub open spec fn starts_as_png(
    width: u32,
    height: u32,
    color: u8,
    depth: u8,
    bytes: Seq<u8>,
) -> bool {
    width > 0 && height > 0 ==> png_start(width, height, color, depth).is_prefix_of(bytes)
}

/// What the png crate writes for a picture, whether or not it then reports an error.
pub uninterp spec fn png_output(
    width: u32,
    height: u32,
    color: u8,
    depth: u8,
    data: Seq<u8>,
) -> Seq<u8>;

/// `png::Encoder`, writing one picture of eight-bit samples to memory: `new`, `set_color`,
/// `set_depth`, `write_header` and `Writer::write_image_data`, and the drop that ends the
/// file. What is written is a function of the arguments, which gets a name here. It is claimed
/// that this succeeds if and only if neither side of the picture is zero and the data has
/// exactly one byte for each sample, and that what is written for a picture with sides starts
/// with the signature and a header that holds its size, color type and depth. Nothing is
/// claimed of how the samples are compressed.
#[verifier::external_body]
fn png_encode(width: u32, height: u32, color: u8, depth: u8, data: &Vec<u8>) -> (r: (Vec<u8>, bool))
    requires
        png_samples(color) > 0,
        depth == 8,
        width <= 0xFFFF,
        height <= 0xFFFF,
        picture_size(width, height, color) <= usize::MAX,
    ensures
        r.0@ == png_output(width, height, color, depth, data@),
        r.1 == makes_png(width, height, color, data@.len()),
        starts_as_png(width, height, color, depth, r.0@),
{
    let mut bytes = Vec::new();
    let mut encoder = png::Encoder::new(&mut bytes, width, height);
    encoder.set_color(png::ColorType::from_u8(color).unwrap());
    encoder.set_depth(png::BitDepth::from_u8(depth).unwrap());
    let outcome = match encoder.write_header() {
        Ok(mut writer) => writer.write_image_data(data),
        Err(e) => Err(e),
    };
    (bytes, outcome.is_ok())
}

impl Frame {
    /// What the PNG file of the frame holds.
    pub open spec fn file(self) -> Seq<u8> {
        png_output(
            self.width as u32,
            self.height as u32,
            PNG_RGBA,
            PNG_EIGHT_BITS,
            self.rgba@,
        )
    }

    /// Why the frame makes no PNG file, if it makes none.
    pub open spec fn fault(self) -> Option<PngFault> {
        if self.width == 0 {
            Some(PngFault::ZeroWidth)
        } else if self.height == 0 {
            Some(PngFault::ZeroHeight)
        } else if self.rgba.len() != 4 * self.width * self.height {
            Some(
                PngFault::WrongSize {
                    expected: (4 * self.width * self.height) as usize,
                    actual: self.rgba.len(),
                },
            )
        } else {
            None
        }
    }
}

/// Appends a frame to `out` as a PNG file, also what there is of one where the frame is at
/// fault.
pub fn write_png(out: &mut Vec<u8>, frame: &Frame) -> (r: Result<(), PngFault>)
    requires
        4 * frame.width * frame.height <= usize::MAX,
    ensures
        final(out)@ == old(out)@ + frame.file(),
        frame.width > 0 && frame.height > 0 ==> png_start(
            frame.width as u32,
            frame.height as u32,
            PNG_RGBA,
            PNG_EIGHT_BITS,
        ).is_prefix_of(frame.file()),
        match frame.fault() {
            None => r is Ok,
            Some(fault) => r == Err::<(), PngFault>(fault),
        },
{
    let width = frame.width as u32;
    let height = frame.height as u32;
    assert(picture_size(width, height, PNG_RGBA) == 4 * frame.width * frame.height)
        by (nonlinear_arith)
        requires
            width == frame.width,
            height == frame.height,
            png_samples(PNG_RGBA) == 4,
            picture_size(width, height, PNG_RGBA) == width * png_samples(PNG_RGBA) * height,
    ;
    let (mut bytes, written) = png_encode(width, height, PNG_RGBA, PNG_EIGHT_BITS, &frame.rgba);
    out.append(&mut bytes);
    if written {
        Ok(())
    } else if frame.width == 0 {
        Err(PngFault::ZeroWidth)
    } else if frame.height == 0 {
        Err(PngFault::ZeroHeight)
    } else {
        assert(0 <= 4 * frame.width <= 4 * frame.width * frame.height) by (nonlinear_arith)
            requires
                frame.height >= 1,
        ;
        Err(
            PngFault::WrongSize {
                expected: 4 * frame.width as usize * frame.height as usize,
                actual: frame.rgba.len(),
            },
        )
    }
}

impl PngFault {
    /// What to say of this fault.
    pub open spec fn words(self) -> Seq<char> {
        match self {
            PngFault::ZeroWidth => "Zero width not allowed"@,
            PngFault::ZeroHeight => "Zero height not allowed"@,
            PngFault::WrongSize { expected, actual } => "wrong data size, expected "@ + dec_text(
                expected as nat,
            ) + " got "@ + dec_text(actual as nat),
        }
    }

    /// Says what is wrong.
    pub fn message(&self) -> (text: String)
        ensures
            text@ == self.words(),
    {
        match self {
            PngFault::ZeroWidth => String::from_str("Zero width not allowed"),
            PngFault::ZeroHeight => String::from_str("Zero height not allowed"),
            PngFault::WrongSize { expected, actual } => {
                let mut text = String::from_str("wrong data size, expected ");
                push_dec(&mut text, *expected as u64);
                text.append(" got ");
                push_dec(&mut text, *actual as u64);
                text
            },
        }
    }
}

/// A PNG file tells the size of its picture: the starts of two of different sizes are not
/// both the start of one file.
pub proof fn law_file_tells_the_size(a: Frame, b: Frame, file: Seq<u8>)
    requires
        png_start(a.width as u32, a.height as u32, PNG_RGBA, PNG_EIGHT_BITS).is_prefix_of(file),
        png_start(b.width as u32, b.height as u32, PNG_RGBA, PNG_EIGHT_BITS).is_prefix_of(file),
    ensures
        a.width == b.width,
        a.height == b.height,
{
    let s = png_start(a.width as u32, a.height as u32, PNG_RGBA, PNG_EIGHT_BITS);
    let t = png_start(b.width as u32, b.height as u32, PNG_RGBA, PNG_EIGHT_BITS);
    assert(s == t);
    assert(s[18] == t[18] && s[19] == t[19] && s[22] == t[22] && s[23] == t[23]);
}

/// Whatever comes of a frame, it makes a file if and only if it has sides and four bytes for
/// each pixel; what is wrong otherwise is named, the width before the height before the size.
/// What is written stands behind what was there, and is what the frame's own size and samples
/// give, as eight-bit samples of red, green, blue and alpha.
pub proof fn law_frame_with_all_its_pixels_makes_a_file(
    out: &mut Vec<u8>,
    frame: &Frame,
    r: Result<(), PngFault>,
)
    requires
        call_ensures(write_png, (out, frame), r),
        4 * frame.width * frame.height <= usize::MAX,
    ensures
        r is Ok <==> frame.width > 0 && frame.height > 0 && frame.rgba.len() == 4 * (frame.width
            * frame.height),
        r == Err::<(), PngFault>(PngFault::ZeroWidth) <==> frame.width == 0,
        r == Err::<(), PngFault>(PngFault::ZeroHeight) <==> frame.width > 0 && frame.height == 0,
        r matches Err(PngFault::WrongSize { expected, actual }) ==> expected == 4 * (frame.width
            * frame.height) && actual == frame.rgba.len(),
        final(out)@ == old(out)@ + png_output(
            frame.width as u32,
            frame.height as u32,
            6,
            8,
            frame.rgba@,
        ),
{
    assert(4 * frame.width * frame.height == 4 * (frame.width * frame.height)) by (nonlinear_arith);
    assert(0 <= 4 * frame.width * frame.height) by (nonlinear_arith);
    assert(frame.fault() is None <==> r is Ok);
}

/// Whatever is written for a frame with sides starts with the signature of PNG and a header
/// from which its width and its height can be read, and that its samples are eight-bit ones of
/// red, green, blue and alpha.
pub proof fn law_file_starts_with_its_size(
    out: &mut Vec<u8>,
    frame: &Frame,
    r: Result<(), PngFault>,
)
    requires
        call_ensures(write_png, (out, frame), r),
        frame.width > 0,
        frame.height > 0,
    ensures
        ({
            let file = final(out)@.skip(old(out)@.len() as int);
            &&& file.len() >= 29
            &&& file.take(8) == seq![0x89u8, 0x50, 0x4E, 0x47, 0x0D, 0x0A, 0x1A, 0x0A]
            &&& file.subrange(12, 16) == seq![0x49u8, 0x48, 0x44, 0x52]
            &&& file[16] == 0 && file[17] == 0 && 256 * file[18] + file[19] == frame.width
            &&& file[20] == 0 && file[21] == 0 && 256 * file[22] + file[23] == frame.height
            &&& file[24] == 8
            &&& file[25] == 6
        }),
{
    let file = final(out)@.skip(old(out)@.len() as int);
    let start = png_start(frame.width as u32, frame.height as u32, PNG_RGBA, PNG_EIGHT_BITS);
    assert(final(out)@ == old(out)@ + frame.file());
    assert(file =~= frame.file());
    assert(start.is_prefix_of(file));
    assert(start.len() == 29);
    assert forall|i: int| 0 <= i < 29 implies #[trigger] file[i] == start[i] by {
        assert(file.subrange(0, 29)[i] == file[i]);
    }
    assert(file.take(8) =~= seq![0x89u8, 0x50, 0x4E, 0x47, 0x0D, 0x0A, 0x1A, 0x0A]);
    assert(file.subrange(12, 16) =~= seq![0x49u8, 0x48, 0x44, 0x52]);
}

/// Whatever is said of a fault names it, and the two sizes where they differ.
pub proof fn law_fault_is_named(fault: PngFault, text: String)
    requires
        call_ensures(PngFault::message, (&fault,), text),
    ensures
        fault is ZeroWidth ==> text@ == "Zero width not allowed"@,
        fault is ZeroHeight ==> text@ == "Zero height not allowed"@,
        fault matches PngFault::WrongSize { expected, actual } ==> text@
            == "wrong data size, expected "@ + dec_text(expected as nat) + " got "@ + dec_text(
            actual as nat,
        ),
{
    assert(text@ == fault.words());
}

} // verus!
