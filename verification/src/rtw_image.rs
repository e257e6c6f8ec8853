use vstd::prelude::*;
use crate::gamma::{is_linear_of, linear_table};

verus! {

/// Bytes stored for each pixel: red, green and blue.
pub const BYTES_PER_PIXEL: usize = 3;

/// `x` clamped to the half-open range `[low, high)`.
pub open spec fn spec_clamp(x: int, low: int, high: int) -> int {
    if x < low {
        low
    } else if x < high {
        x
    } else {
        high - 1
    }
}

/// Clamps `x` to the half-open range `[low, high)`.
pub fn clamp(x: u32, low: u32, high: u32) -> (r: u32)
    requires
        x < low || high > 0,
    ensures
        r == spec_clamp(x as int, low as int, high as int),
{
    if x < low {
        return low;
    }
    if x < high {
        return x;
    }
    high - 1
}

/// `n` steps up the directory tree: `"../"` repeated `n` times.
pub open spec fn parent_dirs(n: nat) -> Seq<char>
    decreases n,
{
    if n == 0 {
        Seq::empty()
    } else {
        parent_dirs((n - 1) as nat) + "../"@
    }
}

/// Where an image file is looked for, in order: the name itself, then `images/`
/// under the current directory and under each of its first six ancestors.
pub open spec fn search_paths(filename: Seq<char>) -> Seq<Seq<char>> {
    Seq::new(8, |k: int| if k == 0 { filename } else { parent_dirs((k - 1) as nat) + "images/"@ + filename })
}

/// The paths tried for an image file, in order. Where an image directory is given,
/// `dir/filename` comes first, followed by the usual search.
pub open spec fn candidate_paths(filename: Seq<char>, imagedir: Option<Seq<char>>) -> Seq<Seq<char>> {
    match imagedir {
        Some(dir) => seq![dir + "/"@ + filename] + search_paths(filename),
        None => search_paths(filename),
    }
}

/// The view of an optional string.
pub open spec fn opt_str_view(s: Option<&str>) -> Option<Seq<char>> {
    match s {
        Some(t) => Some(t@),
        None => None,
    }
}

/// The `k`-th path of `search_paths(filename)`, or `None` past the last.
fn search_path(filename: &str, k: usize) -> (p: Option<String>)
    ensures
        match p {
            Some(s) => k < 8 && s@ == search_paths(filename@)[k as int],
            None => k >= 8,
        },
{
    if k == 0 {
        return Some(String::from_str(filename));
    }
    if k >= 8 {
        return None;
    }
    let mut s = String::new();
    let mut i: usize = 0;
    while i < k - 1
        invariant
            1 <= k < 8,
            i <= k - 1,
            s@ == parent_dirs(i as nat),
        decreases k - 1 - i,
    {
        s.append("../");
        i = i + 1;
    }
    s.append("images/");
    s.append(filename);
    Some(s)
}

/// What an image holds: its size and its row-major linear RGB bytes.
pub struct ImageView {
    pub width: nat,
    pub height: nat,
    pub data: Seq<u8>,
}

impl ImageView {
    /// The bytes hold exactly three per pixel, row after row.
    pub open spec fn well_formed(self) -> bool {
        self.data.len() == self.width * self.height * 3
    }

    /// Offset of the first byte of pixel `(x, y)`.
    pub open spec fn offset(self, x: int, y: int) -> int {
        3 * (y * self.width + x)
    }

    /// The three bytes that a read of pixel `(x, y)` gives: magenta when the image
    /// holds no data, otherwise the pixel at `(x, y)` clamped into the image.
    pub open spec fn pixel(self, x: int, y: int) -> Seq<u8> {
        if self.data.len() == 0 {
            seq![255u8, 0u8, 255u8]
        } else {
            let cx = spec_clamp(x, 0, self.width as int);
            let cy = spec_clamp(y, 0, self.height as int);
            self.data.subrange(self.offset(cx, cy), self.offset(cx, cy) + 3)
        }
    }
}

impl ImageView {
    /// This image is `width` by `height` and holds, byte for byte, the linear values of
    /// the sRGB bytes `raw`.
    pub open spec fn linearizes(self, width: u32, height: u32, raw: Seq<u8>) -> bool {
        &&& self.width == width
        &&& self.height == height
        &&& self.data.len() == raw.len()
        &&& forall|i: int| 0 <= i < raw.len() ==> is_linear_of(raw[i] as int, #[trigger] self.data[i] as int)
    }
}

/// The sRGB image that the `image` crate decodes from the encoded bytes `data`, in the
/// format that the extension of the file name `path` names: width, height and RGB8 bytes
/// row after row; `None` where it reports an error.
pub uninterp spec fn decoded_rgb8(path: Seq<char>, data: Seq<u8>) -> Option<(u32, u32, Seq<u8>)>;

/// The file name `path` ends in `.png`, so that its extension names the PNG format.
pub open spec fn names_png(path: Seq<char>) -> bool {
    path.len() >= 4 && path.subrange(path.len() - 4, path.len() as int) =~= seq!['.', 'p', 'n', 'g']
}

/// The big-endian unsigned 32-bit number in the four bytes of `data` from index `i` on.
pub open spec fn be_u32_at(data: Seq<u8>, i: int) -> int {
    data[i] * 16777216 + data[i + 1] * 65536 + data[i + 2] * 256 + data[i + 3]
}

/// Calls `image::ImageFormat::from_path` on `path`, then `image::load_from_memory_with_format`
/// on `data` with that format, and converts the image with `to_rgb8` and `into_raw`; the
/// width and height returned are those of the decoded image.
/// Trusted: the result is `decoded_rgb8(path, data)`; an error of either call gives `None`.
/// For a `.png` file name the format is PNG, and the `png` decoder accepts a stream only
/// when its 8-byte signature is followed by the `IHDR` chunk (4 bytes of length, 4 of
/// type), whose data starts with the width and then the height, each a big-endian `u32`;
/// `to_rgb8` keeps both. So a PNG that decodes has at least 24 bytes, its width at bytes
/// 16 to 19 and its height at bytes 20 to 23.
/// Nothing is claimed of the buffer's length: `RtwImage::from_rgb8` checks it.
#[verifier::external_body]
fn decode_rgb8(path: &str, data: &[u8]) -> (res: Option<(u32, u32, Vec<u8>)>)
    ensures
        match res {
            None => decoded_rgb8(path@, data@) is None,
            Some((w, h, raw)) => decoded_rgb8(path@, data@) == Some((w, h, raw@)),
        },
        res matches Some((w, h, _)) ==> (names_png(path@) ==> {
            &&& data@.len() >= 24
            &&& w as int == be_u32_at(data@, 16)
            &&& h as int == be_u32_at(data@, 20)
        }),
{
    let format = image::ImageFormat::from_path(path).ok()?;
    let img = image::load_from_memory_with_format(data, format).ok()?;
    let rgb = img.to_rgb8();
    Some((rgb.width(), rgb.height(), rgb.into_raw()))
}

/// Why an encoded image could not be turned into an `RtwImage`.
#[derive(Debug, PartialEq, Eq)]
pub enum LoadError {
    /// The bytes are not an image in the format that the file name's extension names.
    Decode,
    /// The decoded pixel buffer does not hold three bytes per pixel.
    Layout,
}

/// An image of linear (gamma 1) 8-bit RGB pixels, read by pixel coordinates.
pub struct RtwImage {
    image_width: u32,
    image_height: u32,
    bdata: Vec<u8>,
}

impl View for RtwImage {
    type V = ImageView;

    closed spec fn view(&self) -> ImageView {
        ImageView {
            width: self.image_width as nat,
            height: self.image_height as nat,
            data: self.bdata@,
        }
    }
}

proof fn lemma_offset_bound(x: int, y: int, w: int, h: int)
    requires
        0 <= x < w,
        0 <= y < h,
    ensures
        0 <= y * w + x,
        y * w + x + 1 <= h * w,
{
    assert(0 <= y * w + x && y * w + x + 1 <= h * w) by (nonlinear_arith)
        requires
            0 <= x < w,
            0 <= y < h,
    ;
}

impl RtwImage {
    #[verifier::type_invariant]
    spec fn layout(&self) -> bool {
        self.bdata@.len() == (self.image_width as int) * (self.image_height as int) * 3
    }

    /// The image that holds nothing: zero by zero pixels.
    pub fn empty() -> (img: RtwImage)
        ensures
            img@.width == 0,
            img@.height == 0,
            img@.data.len() == 0,
            img@.well_formed(),
    {
        RtwImage { image_width: 0, image_height: 0, bdata: Vec::new() }
    }

    /// The image width in pixels (zero for the empty image).
    pub fn width(&self) -> (w: u32)
        ensures
            w == self@.width,
    {
        self.image_width
    }

    /// The image height in pixels (zero for the empty image).
    pub fn height(&self) -> (h: u32)
        ensures
            h == self@.height,
    {
        self.image_height
    }

    /// The three RGB bytes of pixel `(x, y)`, the coordinates clamped into the image;
    /// magenta `[255, 0, 255]` when the image holds no data.
    pub fn pixel_data(&self, x: u32, y: u32) -> (p: &[u8])
        ensures
            p@ == self@.pixel(x as int, y as int),
            p@.len() == 3,
    {
        proof {
            use_type_invariant(self);
            lemma_pixel_has_three_bytes(self@, x as int, y as int);
        }
        let len = self.bdata.len();
        if len == 0 {
            let magenta: &[u8] = &[255u8, 0u8, 255u8];
            assert(magenta@ == seq![255u8, 0u8, 255u8]);
            return magenta;
        }
        proof {
            if self.image_width == 0 || self.image_height == 0 {
                assert(self.bdata@.len() == 0) by (nonlinear_arith)
                    requires
                        self.bdata@.len() == (self.image_width as int) * (self.image_height as int) * 3,
                        self.image_width == 0 || self.image_height == 0,
                ;
            }
        }
        let cx = clamp(x, 0, self.image_width);
        let cy = clamp(y, 0, self.image_height);
        proof {
            lemma_offset_bound(cx as int, cy as int, self.image_width as int, self.image_height as int);
            assert((cy * self.image_width + cx + 1) * 3 <= len) by (nonlinear_arith)
                requires
                    cy * self.image_width + cx + 1 <= self.image_height * self.image_width,
                    len == (self.image_width as int) * (self.image_height as int) * 3,
            ;
        }
        let pixel = (cy as usize) * (self.image_width as usize) + (cx as usize);
        let index = pixel * BYTES_PER_PIXEL;
        &self.bdata.as_slice()[index..index + BYTES_PER_PIXEL]
    }

    /// The `attempt`-th path (counting from zero) at which an image file named
    /// `image_filename` is looked for, `imagedir` being the image directory from the
    /// environment where one is set; `None` once every path has been tried.
    pub fn candidate_path(image_filename: &str, imagedir: Option<&str>, attempt: usize) -> (p: Option<String>)
        ensures
            match p {
                Some(s) => attempt < candidate_paths(image_filename@, opt_str_view(imagedir)).len()
                    && s@ == candidate_paths(image_filename@, opt_str_view(imagedir))[attempt as int],
                None => attempt >= candidate_paths(image_filename@, opt_str_view(imagedir)).len(),
            },
    {
        match imagedir {
            Some(dir) => {
                if attempt == 0 {
                    let mut s = String::from_str(dir);
                    s.append("/");
                    s.append(image_filename);
                    Some(s)
                } else {
                    search_path(image_filename, attempt - 1)
                }
            },
            None => search_path(image_filename, attempt),
        }
    }

    /// Builds an image from decoded sRGB bytes, three per pixel and row after row,
    /// converting each byte to linear intensity.
    pub fn from_rgb8(width: u32, height: u32, raw: Vec<u8>) -> (res: Result<RtwImage, LoadError>)
        ensures
            res is Err <==> raw@.len() != (width as int) * (height as int) * 3,
            res is Err ==> res == Err::<RtwImage, LoadError>(LoadError::Layout),
            res matches Ok(img) ==> img@.linearizes(width, height, raw@) && img@.well_formed(),
    {
        proof {
            assert((width as int) * (height as int) * 3 <= 0xffff_ffff * 0xffff_ffff * 3) by (nonlinear_arith)
                requires
                    width <= 0xffff_ffff,
                    height <= 0xffff_ffff,
            ;
        }
        let expected: u128 = (width as u128) * (height as u128) * 3;
        if raw.len() as u128 != expected {
            return Err(LoadError::Layout);
        }
        let table = linear_table();
        let mut bdata: Vec<u8> = Vec::new();
        let n = raw.len();
        let mut i: usize = 0;
        while i < n
            invariant
                n == raw@.len(),
                i <= n,
                table@.len() == 256,
                forall|b: int| 0 <= b < 256 ==> is_linear_of(b, #[trigger] table@[b] as int),
                bdata@.len() == i,
                forall|k: int| 0 <= k < i ==> is_linear_of(raw@[k] as int, #[trigger] bdata@[k] as int),
            decreases n - i,
        {
            let b = raw[i];
            let v = table[b as usize];
            bdata.push(v);
            i = i + 1;
        }
        Ok(RtwImage { image_width: width, image_height: height, bdata })
    }

    /// Decodes the bytes of an image file named `filename` (its extension names the
    /// format) and converts them to linear bytes.
    pub fn load(filename: &str, data: &[u8]) -> (res: Result<RtwImage, LoadError>)
        ensures
            match decoded_rgb8(filename@, data@) {
                None => res == Err::<RtwImage, LoadError>(LoadError::Decode),
                Some((w, h, raw)) => {
                    &&& res is Err <==> raw.len() != (w as int) * (h as int) * 3
                    &&& res is Err ==> res == Err::<RtwImage, LoadError>(LoadError::Layout)
                    &&& res matches Ok(img) ==> img@.linearizes(w, h, raw) && img@.well_formed()
                },
            },
            res matches Ok(img) ==> (names_png(filename@) ==> {
                &&& data@.len() >= 24
                &&& img@.width as int == be_u32_at(data@, 16)
                &&& img@.height as int == be_u32_at(data@, 20)
            }),
    {
        match decode_rgb8(filename, data) {
            None => Err(LoadError::Decode),
            Some((w, h, raw)) => RtwImage::from_rgb8(w, h, raw),
        }
    }
}

/// Clamping lands in `[low, high)` whenever that range is not empty.
pub proof fn lemma_clamp_in_range(x: int, low: int, high: int)
    requires
        low < high,
    ensures
        low <= spec_clamp(x, low, high) < high,
{
}

/// Clamping leaves a value already in `[low, high)` unchanged, and clamping twice is
/// clamping once.
pub proof fn lemma_clamp_idempotent(x: int, low: int, high: int)
    requires
        low < high,
    ensures
        low <= x < high ==> spec_clamp(x, low, high) == x,
        spec_clamp(spec_clamp(x, low, high), low, high) == spec_clamp(x, low, high),
{
}

/// Every read of a well-formed image gives three bytes.
pub proof fn lemma_pixel_has_three_bytes(v: ImageView, x: int, y: int)
    requires
        v.well_formed(),
    ensures
        v.pixel(x, y).len() == 3,
{
    if v.data.len() != 0 {
        if v.width == 0 || v.height == 0 {
            assert(v.data.len() == 0) by (nonlinear_arith)
                requires
                    v.data.len() == v.width * v.height * 3,
                    v.width == 0 || v.height == 0,
            ;
        }
        let cx = spec_clamp(x, 0, v.width as int);
        let cy = spec_clamp(y, 0, v.height as int);
        lemma_offset_bound(cx, cy, v.width as int, v.height as int);
        assert(v.offset(cx, cy) + 3 <= v.data.len()) by (nonlinear_arith)
            requires
                cy * v.width + cx + 1 <= v.height * v.width,
                v.offset(cx, cy) == 3 * (cy * v.width + cx),
                v.data.len() == v.width * v.height * 3,
        ;
    }
}

/// An image without data reads magenta everywhere.
pub proof fn lemma_empty_reads_magenta(v: ImageView, x: int, y: int)
    requires
        v.data.len() == 0,
    ensures
        v.pixel(x, y) == seq![255u8, 0u8, 255u8],
{
}

/// A read past the right or bottom edge gives the edge pixel of that row or column.
pub proof fn lemma_read_clamps_to_edge(v: ImageView, x: int, y: int)
    requires
        v.well_formed(),
        v.data.len() != 0,
        0 <= x,
        0 <= y,
    ensures
        v.width > 0,
        v.height > 0,
        v.pixel(x, y) == v.pixel(
            if x < v.width { x } else { v.width - 1 },
            if y < v.height { y } else { v.height - 1 },
        ),
{
    if v.width == 0 || v.height == 0 {
        assert(v.data.len() == 0) by (nonlinear_arith)
            requires
                v.data.len() == v.width * v.height * 3,
                v.width == 0 || v.height == 0,
        ;
    }
}

/// What a read gives back of what loading wrote: in an image built from the sRGB bytes
/// `raw`, channel `c` of pixel `(x, y)` is the linear value of the byte of `raw` at
/// `3 * (y * width + x) + c`.
pub proof fn lemma_read_gives_back_loaded(v: ImageView, width: u32, height: u32, raw: Seq<u8>, x: int, y: int, c: int)
    requires
        v.linearizes(width, height, raw),
        raw.len() == (width as int) * (height as int) * 3,
        0 <= x < width,
        0 <= y < height,
        0 <= c < 3,
    ensures
        v.pixel(x, y).len() == 3,
        is_linear_of(raw[3 * (y * width + x) + c] as int, v.pixel(x, y)[c] as int),
{
    lemma_pixel_has_three_bytes(v, x, y);
    lemma_offset_bound(x, y, width as int, height as int);
    assert(3 * (y * width + x) + c < raw.len()) by (nonlinear_arith)
        requires
            y * width + x + 1 <= height * width,
            raw.len() == (width as int) * (height as int) * 3,
            0 <= c < 3,
    ;
    assert(v.data.len() != 0);
    assert(v.pixel(x, y)[c] == v.data[3 * (y * width + x) + c]);
}

/// Without an image directory the name itself is tried first and eight paths are tried
/// in all; with one, `dir/filename` is tried first and then the same eight paths.
pub proof fn lemma_candidate_order(filename: Seq<char>, dir: Seq<char>)
    ensures
        candidate_paths(filename, None).len() == 8,
        candidate_paths(filename, None)[0] == filename,
        candidate_paths(filename, Some(dir)).len() == 9,
        candidate_paths(filename, Some(dir))[0] == dir + "/"@ + filename,
        candidate_paths(filename, Some(dir)).subrange(1, 9) == candidate_paths(filename, None),
{
    assert(candidate_paths(filename, Some(dir)).subrange(1, 9) =~= candidate_paths(filename, None));
}

} // verus!
