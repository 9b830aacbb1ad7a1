//! The bitmap encoder: a 14-byte file header, a 12-byte core header, and the
//! pixel rows, bottom row first, each padded with zeros to a multiple of four
//! bytes. Every multi-byte number is little-endian.

use crate::bytes::{
    le_bytes, le_value, lemma_le_bytes_u32, lemma_le_round_trip_u16, lemma_le_round_trip_u32,
    u16_to_bytes_little_endian, u32_to_bytes_little_endian,
};
use crate::image::{buffer_len, lemma_pixel_in_buffer, pixel_index, Image};
use vstd::prelude::*;

verus! {

/// The bytes that each encoded row takes: 24 bits per pixel, rounded up to
/// whole 32-bit words.
pub open spec fn row_stride(width: nat) -> nat {
    ((24 * width + 31) / 32) * 4
}

/// The bytes that the encoded rows of a `width` by `height` image take.
pub open spec fn pixel_array_len(width: nat, height: nat) -> nat {
    row_stride(width) * height
}

/// The bytes that the two headers take together.
pub open spec fn headers_len() -> nat {
    26
}

/// The bytes that the whole file of a `width` by `height` image takes.
pub open spec fn file_len(width: nat, height: nat) -> nat {
    headers_len() + pixel_array_len(width, height)
}

/// The file header: the signature `BM`, the size of the file, four reserved
/// bytes, and the offset of the pixel rows.
pub open spec fn file_header_bytes(size: nat) -> Seq<u8> {
    seq![0x42u8, 0x4Du8] + le_bytes(size, 4) + seq![0u8, 0u8, 0u8, 0u8] + le_bytes(
        headers_len(),
        4,
    )
}

/// The core header: its own size, the width, the height, one colour plane,
/// 24 bits per pixel.
pub open spec fn core_header_bytes(width: nat, height: nat) -> Seq<u8> {
    le_bytes(12, 4) + le_bytes(width, 2) + le_bytes(height, 2) + le_bytes(1, 2)
        + le_bytes(24, 2)
}

/// The byte at place `col` of encoded row `row`, counted from the start of the
/// pixel rows: the rows stand bottom row first, and behind the pixels of a row
/// stand zeros.
pub open spec fn encoded_row_byte(
    width: nat,
    height: nat,
    buffer: Seq<u8>,
    row: int,
    col: int,
) -> u8 {
    if col < 3 * width {
        buffer[3 * width * (height - 1 - row) + col]
    } else {
        0
    }
}

/// The pixel rows of the file that encodes the image with the given buffer.
pub open spec fn pixel_array_bytes(width: nat, height: nat, buffer: Seq<u8>) -> Seq<u8> {
    Seq::new(
        pixel_array_len(width, height),
        |i: int|
            encoded_row_byte(
                width,
                height,
                buffer,
                i / (row_stride(width) as int),
                i % (row_stride(width) as int),
            ),
    )
}

/// The file that encodes the image with the given buffer.
pub open spec fn bmp_file_bytes(width: nat, height: nat, buffer: Seq<u8>) -> Seq<u8> {
    file_header_bytes(file_len(width, height)) + core_header_bytes(width, height)
        + pixel_array_bytes(width, height, buffer)
}

/// The row stride is the least multiple of four that holds the three bytes of
/// each pixel of a row.
pub proof fn lemma_row_stride_pads(width: nat)
    ensures
        row_stride(width) % 4 == 0,
        3 * width <= row_stride(width) < 3 * width + 4,
{
}

/// The bytes of a row with its padding.
pub fn bmp_rowsize(image_width: u16) -> (rowsize: u32)
    ensures
        rowsize == row_stride(image_width as nat),
{
    let bpp: u32 = 24;
    (bpp * image_width as u32 + 31) / 32 * 4
}

/// The bytes of `image_height` rows of `rowsize` bytes each.
pub fn bmp_pixel_array_size(rowsize: u32, image_height: u16) -> (size: u32)
    requires
        rowsize * image_height <= u32::MAX,
    ensures
        size == rowsize * image_height,
{
    rowsize * image_height as u32
}

/// Whether the file of a `width` by `height` image is short enough for its
/// length to be written into the four bytes that the file header has for it.
pub fn bmp_size_fits(width: u16, height: u16) -> (fits: bool)
    ensures
        fits == (file_len(width as nat, height as nat) <= u32::MAX),
{
    let rowsize: u64 = bmp_rowsize(width) as u64;
    assert(rowsize * height <= 0x4_0000 * 0x1_0000) by (nonlinear_arith)
        requires
            rowsize <= 0x4_0000,
            height <= 0x1_0000,
    ;
    26 + rowsize * height as u64 <= u32::MAX as u64
}

/// The size of the file that encodes `image`.
pub fn bmp_size_for_image(image: &Image) -> (size: u32)
    requires
        file_len(image.spec_width(), image.spec_height()) <= u32::MAX,
    ensures
        size == file_len(image.spec_width(), image.spec_height()),
{
    let headers_size: u32 = 26;
    let pixel_array_size = bmp_pixel_array_size(bmp_rowsize(image.width()), image.height());
    return headers_size + pixel_array_size;
}

/// The first header of a bitmap file.
pub struct BMPFileHeader {
    signature: [u8; 2],
    size: u32,
    _reserved: u32,
    offset_to_pixels: u32,
}

impl BMPFileHeader {
    #[verifier::type_invariant]
    spec fn well_formed(&self) -> bool {
        &&& self.signature@ == seq![0x42u8, 0x4Du8]
        &&& self._reserved == 0
        &&& self.offset_to_pixels == headers_len()
    }

    /// The size of the file, as the header states it.
    pub closed spec fn spec_size(&self) -> u32 {
        self.size
    }

    /// The header of a file of `size` bytes.
    pub fn new(size: u32) -> (header: BMPFileHeader)
        ensures
            header.spec_size() == size,
    {
        let header = BMPFileHeader {
            signature: [0x42, 0x4D],  // 'BM'
            size,
            _reserved: 0,
            offset_to_pixels: 26,  // 14 (this header) + 12 (the other header)
        };
        assert(header.signature@ =~= seq![0x42u8, 0x4Du8]);
        header
    }

    /// The 14 bytes of the header as they stand in the file.
    pub fn as_bytes(&self) -> (a: [u8; 14])
        ensures
            a@ == file_header_bytes(self.spec_size() as nat),
    {
        proof {
            use_type_invariant(self);
        }
        let size = u32_to_bytes_little_endian(self.size);
        let offset = u32_to_bytes_little_endian(self.offset_to_pixels);
        let mut a: [u8; 14] = [0; 14];
        a[0] = self.signature[0];
        a[1] = self.signature[1];
        for i in 0..4usize
            invariant
                a@[0] == 0x42,
                a@[1] == 0x4D,
                forall|j: int| 0 <= j < i ==> a@[2 + j] == size@[j],
                forall|j: int| 6 <= j < 14 ==> a@[j] == 0,
        {
            a[2 + i] = size[i];
        }
        for i in 0..4usize
            invariant
                a@[0] == 0x42,
                a@[1] == 0x4D,
                forall|j: int| 0 <= j < 4 ==> a@[2 + j] == size@[j],
                forall|j: int| 6 <= j < 10 ==> a@[j] == 0,
                forall|j: int| 0 <= j < i ==> a@[10 + j] == offset@[j],
        {
            a[10 + i] = offset[i];
        }
        assert(a@ =~= file_header_bytes(self.spec_size() as nat));
        return a;
    }
}

/// The second header of a bitmap file, in its oldest and shortest form.
pub struct BMPCoreHeader {
    size: u32,  // always 12 (bytes)
    width: u16,
    height: u16,
    num_color_planes: u16,  // must be 1
    num_bbp: u16,
}

impl BMPCoreHeader {
    #[verifier::type_invariant]
    spec fn well_formed(&self) -> bool {
        &&& self.size == 12
        &&& self.num_color_planes == 1
        &&& self.num_bbp == 24
    }

    /// The width of the image in pixels, as the header states it.
    pub closed spec fn spec_width(&self) -> u16 {
        self.width
    }

    /// The height of the image in pixels, as the header states it.
    pub closed spec fn spec_height(&self) -> u16 {
        self.height
    }

    /// The header of a `width` by `height` image.
    pub fn new(width: u16, height: u16) -> (header: BMPCoreHeader)
        ensures
            header.spec_width() == width,
            header.spec_height() == height,
    {
        BMPCoreHeader { size: 12, width, height, num_color_planes: 1, num_bbp: 24 }
    }

    /// The 12 bytes of the header as they stand in the file.
    pub fn as_bytes(&self) -> (a: [u8; 12])
        ensures
            a@ == core_header_bytes(self.spec_width() as nat, self.spec_height() as nat),
    {
        proof {
            use_type_invariant(self);
        }
        let size = u32_to_bytes_little_endian(self.size);
        let width = u16_to_bytes_little_endian(self.width);
        let height = u16_to_bytes_little_endian(self.height);
        let planes = u16_to_bytes_little_endian(self.num_color_planes);
        let bpp = u16_to_bytes_little_endian(self.num_bbp);
        let mut a: [u8; 12] = [0; 12];
        for i in 0..4usize
            invariant
                forall|j: int| 0 <= j < i ==> a@[j] == size@[j],
        {
            a[i] = size[i];
        }
        for i in 0..2usize
            invariant
                forall|j: int| 0 <= j < 4 ==> a@[j] == size@[j],
                forall|j: int| 0 <= j < i ==> a@[4 + j] == width@[j],
                forall|j: int| 0 <= j < i ==> a@[6 + j] == height@[j],
                forall|j: int| 0 <= j < i ==> a@[8 + j] == planes@[j],
                forall|j: int| 0 <= j < i ==> a@[10 + j] == bpp@[j],
        {
            a[4 + i] = width[i];
            a[6 + i] = height[i];
            a[8 + i] = planes[i];
            a[10 + i] = bpp[i];
        }
        assert(a@ =~= core_header_bytes(self.spec_width() as nat, self.spec_height() as nat));
        return a;
    }
}

/// A bitmap file in memory: the two headers and the padded pixel rows.
pub struct BMPImage {
    file_header: BMPFileHeader,
    bmp_core_header: BMPCoreHeader,
    pixel_array: Vec<u8>,
}

impl View for BMPImage {
    type V = Seq<u8>;

    /// The bytes of the file.
    closed spec fn view(&self) -> Seq<u8> {
        file_header_bytes(self.file_header.spec_size() as nat) + core_header_bytes(
            self.bmp_core_header.spec_width() as nat,
            self.bmp_core_header.spec_height() as nat,
        ) + self.pixel_array@
    }
}

impl BMPImage {
    /// Encodes `image`: the rows are turned upside down, and each is padded
    /// to a multiple of four bytes. The length of the file must fit into the
    /// four bytes that the file header has for it; `bmp_size_fits` tells
    /// whether it does.
    pub fn from(image: Image) -> (bmp: BMPImage)
        requires
            file_len(image.spec_width(), image.spec_height()) <= u32::MAX,
        ensures
            bmp@ == bmp_file_bytes(image.spec_width(), image.spec_height(), image@),
            bmp@.len() == file_len(image.spec_width(), image.spec_height()),
    {
        let width: u16 = image.width();
        let height: u16 = image.height();
        let file_size = bmp_size_for_image(&image);
        let file_header = BMPFileHeader::new(file_size);
        let bmp_core_header: BMPCoreHeader = BMPCoreHeader::new(width, height);

        let row_size = bmp_rowsize(width);
        let pixel_array_size = bmp_pixel_array_size(row_size, height) as usize;
        let mut bmp_image = BMPImage {
            file_header,
            bmp_core_header,
            pixel_array: Vec::with_capacity(pixel_array_size),
        };

        for i in 0..pixel_array_size
            invariant
                bmp_image.pixel_array@.len() == i,
                forall|j: int| 0 <= j < i ==> bmp_image.pixel_array@[j] == 0,
                bmp_image.file_header.spec_size() == file_size,
                bmp_image.bmp_core_header.spec_width() == width,
                bmp_image.bmp_core_header.spec_height() == height,
        {
            bmp_image.pixel_array.push(0);
        }

        let pixel_data = image.pixel_data();
        let ghost w: nat = width as nat;
        let ghost h: nat = height as nat;
        let ghost stride: int = row_size as int;
        let ghost target: Seq<u8> = pixel_array_bytes(w, h, image@);
        proof {
            lemma_row_stride_pads(w);
            assert(stride * 0 == 0);
        }
        for y in 0..height
            invariant
                w == width,
                h == height,
                stride == row_size,
                stride == row_stride(w),
                3 * w <= stride,
                pixel_array_size == stride * h,
                target == pixel_array_bytes(w, h, image@),
                pixel_data@ == image@,
                pixel_data@.len() == buffer_len(w, h),
                bmp_image.pixel_array@.len() == pixel_array_size,
                bmp_image.file_header.spec_size() == file_size,
                bmp_image.bmp_core_header.spec_width() == width,
                bmp_image.bmp_core_header.spec_height() == height,
                forall|i: int| 0 <= i < stride * y ==> bmp_image.pixel_array@[i] == target[i],
                forall|i: int|
                    stride * y <= i < pixel_array_size ==> bmp_image.pixel_array@[i] == 0,
        {
            proof {
                lemma_row_in_array(stride, y as int, h as int);
            }
            for x in 0..width
                invariant
                    y < height,
                    w == width,
                    h == height,
                    stride == row_size,
                    stride == row_stride(w),
                    3 * w <= stride,
                    stride * y + stride <= stride * h,
                    0 <= stride * y,
                    pixel_array_size == stride * h,
                    target == pixel_array_bytes(w, h, image@),
                    pixel_data@ == image@,
                    pixel_data@.len() == buffer_len(w, h),
                    bmp_image.pixel_array@.len() == pixel_array_size,
                    bmp_image.file_header.spec_size() == file_size,
                    bmp_image.bmp_core_header.spec_width() == width,
                    bmp_image.bmp_core_header.spec_height() == height,
                    forall|i: int|
                        0 <= i < stride * y + 3 * x ==> bmp_image.pixel_array@[i] == target[i],
                    forall|i: int|
                        stride * y + 3 * x <= i < pixel_array_size ==> bmp_image.pixel_array@[i]
                            == 0,
            {
                let x_i: usize = x as usize * 3;
                let y: usize = y as usize;
                proof {
                    let rows_above: int = h - 1 - y;
                    lemma_pixel_in_buffer(w, h, x as nat, rows_above as nat);
                    assert(pixel_data@.len() == pixel_data.len());
                    assert(3 * (x + w * rows_above) == x_i + 3 * rows_above * w) by (nonlinear_arith)
                        requires
                            x_i == x * 3,
                    ;
                    assert(3 * rows_above * w == 3 * w * rows_above) by (nonlinear_arith);
                    assert(0 <= 3 * rows_above * w) by (nonlinear_arith)
                        requires
                            0 <= rows_above,
                            0 <= w,
                    ;
                    assert(stride * y == y * stride) by (nonlinear_arith);
                    lemma_target_byte(w, h, image@, y as int, x_i as int);
                    lemma_target_byte(w, h, image@, y as int, x_i + 1);
                    lemma_target_byte(w, h, image@, y as int, x_i + 2);
                }
                let from: usize = x_i + 3 * (height as usize - 1 - y) * width as usize;
                let b = pixel_data[from];
                let g = pixel_data[from + 1];
                let r = pixel_data[from + 2];

                bmp_image.pixel_array[x_i + y * row_size as usize] = b;
                bmp_image.pixel_array[x_i + y * row_size as usize + 1] = g;
                bmp_image.pixel_array[x_i + y * row_size as usize + 2] = r;
            }
            proof {
                assert(stride * y + stride == stride * (y + 1)) by (nonlinear_arith);
                assert forall|i: int| stride * y + 3 * w <= i < stride * (y + 1) implies target[i]
                    == 0 by {
                    lemma_target_byte(w, h, image@, y as int, i - stride * y);
                }
            }
        }
        assert(bmp_image.pixel_array@ =~= target);
        return bmp_image;
    }

    /// The bytes of the file: the file header, the core header, the pixel
    /// rows.
    pub fn as_bytes(&self) -> (output: Vec<u8>)
        ensures
            output@ == self@,
    {
        let mut output: Vec<u8> = Vec::new();
        let file_header = self.file_header.as_bytes();
        let core_header = self.bmp_core_header.as_bytes();
        output.extend_from_slice(file_header.as_slice());
        output.extend_from_slice(core_header.as_slice());
        output.extend_from_slice(self.pixel_array.as_slice());
        return output;
    }
}

/// The file is as long as its header says, starts with the signature `BM`,
/// and states that the pixel rows start behind the two headers.
pub proof fn lemma_file_header_fields(width: nat, height: nat, buffer: Seq<u8>)
    requires
        file_len(width, height) <= u32::MAX,
    ensures
        bmp_file_bytes(width, height, buffer).len() == file_len(width, height),
        bmp_file_bytes(width, height, buffer)[0] == 0x42,
        bmp_file_bytes(width, height, buffer)[1] == 0x4D,
        le_value(bmp_file_bytes(width, height, buffer).subrange(2, 6)) == file_len(width, height),
        le_value(bmp_file_bytes(width, height, buffer).subrange(6, 10)) == 0,
        le_value(bmp_file_bytes(width, height, buffer).subrange(10, 14)) == headers_len(),
{
    let file = bmp_file_bytes(width, height, buffer);
    let size = file_len(width, height) as u32;
    assert(file.subrange(2, 6) =~= le_bytes(size as nat, 4));
    assert(file.subrange(6, 10) =~= le_bytes(0, 4)) by {
        lemma_le_bytes_u32(0);
    }
    assert(file.subrange(10, 14) =~= le_bytes(26, 4));
    lemma_le_round_trip_u32(size);
    lemma_le_round_trip_u32(0);
    lemma_le_round_trip_u32(26);
}

/// The core header states its own length, the size of the image, one colour
/// plane and 24 bits per pixel.
pub proof fn lemma_core_header_fields(width: u16, height: u16, buffer: Seq<u8>)
    ensures
        le_value(bmp_file_bytes(width as nat, height as nat, buffer).subrange(14, 18)) == 12,
        le_value(bmp_file_bytes(width as nat, height as nat, buffer).subrange(18, 20)) == width,
        le_value(bmp_file_bytes(width as nat, height as nat, buffer).subrange(20, 22)) == height,
        le_value(bmp_file_bytes(width as nat, height as nat, buffer).subrange(22, 24)) == 1,
        le_value(bmp_file_bytes(width as nat, height as nat, buffer).subrange(24, 26)) == 24,
{
    let file = bmp_file_bytes(width as nat, height as nat, buffer);
    assert(file.subrange(14, 18) =~= le_bytes(12, 4));
    assert(file.subrange(18, 20) =~= le_bytes(width as nat, 2));
    assert(file.subrange(20, 22) =~= le_bytes(height as nat, 2));
    assert(file.subrange(22, 24) =~= le_bytes(1, 2));
    assert(file.subrange(24, 26) =~= le_bytes(24, 2));
    lemma_le_round_trip_u32(12);
    lemma_le_round_trip_u16(width);
    lemma_le_round_trip_u16(height);
    lemma_le_round_trip_u16(1);
    lemma_le_round_trip_u16(24);
}

/// Byte `channel` of pixel `(x, y)` of the image stands in the file in row
/// `height - 1 - y` of the pixel rows, at the place that it has in its own
/// row of the image.
pub proof fn lemma_pixel_in_file(
    width: nat,
    height: nat,
    buffer: Seq<u8>,
    x: nat,
    y: nat,
    channel: nat,
)
    requires
        x < width,
        y < height,
        channel < 3,
    ensures
        headers_len() + row_stride(width) * (height - 1 - y) + 3 * x + channel < file_len(
            width,
            height,
        ),
        bmp_file_bytes(width, height, buffer)[headers_len() + row_stride(width) * (height - 1 - y)
            + 3 * x + channel] == buffer[pixel_index(width, x, y) + channel],
{
    let row: int = height - 1 - y;
    let col: int = (3 * x + channel) as int;
    lemma_row_stride_pads(width);
    lemma_target_byte(width, height, buffer, row, col);
    assert(3 * width * (height - 1 - row) + col == pixel_index(width, x, y) + channel)
        by (nonlinear_arith)
        requires
            height - 1 - row == y,
            col == 3 * x + channel,
            pixel_index(width, x, y) == 3 * (x + width * y),
    ;
}

/// Behind the pixels of each row of the file stand zeros.
pub proof fn lemma_padding_in_file(width: nat, height: nat, buffer: Seq<u8>, row: nat, col: nat)
    requires
        row < height,
        3 * width <= col < row_stride(width),
    ensures
        headers_len() + row_stride(width) * row + col < file_len(width, height),
        bmp_file_bytes(width, height, buffer)[(headers_len() + row_stride(width) * row + col) as int]
            == 0,
{
    lemma_target_byte(width, height, buffer, row as int, col as int);
}

/// Row `row` of `height` rows of `stride` bytes lies inside the rows.
proof fn lemma_row_in_array(stride: int, row: int, height: int)
    requires
        0 <= stride,
        0 <= row < height,
    ensures
        0 <= stride * row,
        stride * row + stride <= stride * height,
{
    assert(0 <= stride * row) by (nonlinear_arith)
        requires
            0 <= stride,
            0 <= row,
    ;
    assert(stride * row + stride <= stride * height) by (nonlinear_arith)
        requires
            0 <= stride,
            row + 1 <= height,
    ;
}

/// The byte of the pixel rows at place `col` of row `row`.
proof fn lemma_target_byte(width: nat, height: nat, buffer: Seq<u8>, row: int, col: int)
    requires
        0 <= row < height,
        0 <= col < row_stride(width),
    ensures
        0 <= row_stride(width) * row + col < pixel_array_len(width, height),
        pixel_array_bytes(width, height, buffer)[row_stride(width) * row + col]
            == encoded_row_byte(width, height, buffer, row, col),
{
    let stride = row_stride(width) as int;
    lemma_row_in_array(stride, row, height as int);
    assert(stride * height == pixel_array_len(width, height));
    let i = stride * row + col;
    vstd::arithmetic::div_mod::lemma_fundamental_div_mod_converse(i, stride, row, col);
}

} // verus!
