//! 8-bit RGBA colours, images made of them, and a cursor that fills an image in order.
use vstd::prelude::*;

verus! {

/// An 8-bit-per-channel colour with an alpha channel.
#[derive(Debug, Clone, Copy, PartialEq, Eq, Structural, Hash, PartialOrd, Ord)]
pub struct Rgba(u8, u8, u8, u8);

impl View for Rgba {
    type V = (u8, u8, u8, u8);

    closed spec fn view(&self) -> (u8, u8, u8, u8) {
        (self.0, self.1, self.2, self.3)
    }
}

/// Two colours are the same exactly when their channels are.
pub proof fn lemma_rgba_view_injective(a: Rgba, b: Rgba)
    ensures
        a@ == b@ <==> a == b,
{
}

impl Rgba {
    pub fn new(r: u8, g: u8, b: u8, a: u8) -> (c: Self)
        ensures
            c@ == (r, g, b, a),
    {
        Self(r, g, b, a)
    }

    pub fn from_rgb(r: u8, g: u8, b: u8) -> (c: Self)
        ensures
            c@ == (r, g, b, 255u8),
    {
        Self(r, g, b, 255)
    }

    pub fn r(&self) -> (v: u8)
        ensures
            v == self@.0,
    {
        self.0
    }

    pub fn g(&self) -> (v: u8)
        ensures
            v == self@.1,
    {
        self.1
    }

    pub fn b(&self) -> (v: u8)
        ensures
            v == self@.2,
    {
        self.2
    }

    pub fn a(&self) -> (v: u8)
        ensures
            v == self@.3,
    {
        self.3
    }
}

impl Default for Rgba {
    /// Transparent black.
    fn default() -> (c: Self)
        ensures
            c@ == (0u8, 0u8, 0u8, 0u8),
    {
        Self(0, 0, 0, 0)
    }
}

/// The colour whose channels are `(r, g, b, a)`.
pub open spec fn rgba_of(r: u8, g: u8, b: u8, a: u8) -> Rgba {
    choose|c: Rgba| c@ == (r, g, b, a)
}

impl From<[u8; 4]> for Rgba {
    /// The colour whose channels are the four bytes, in order.
    fn from(arr: [u8; 4]) -> (c: Self) {
        let c = Self(arr[0], arr[1], arr[2], arr[3]);
        assert(c@ == (arr@[0], arr@[1], arr@[2], arr@[3]));
        c
    }
}

impl vstd::std_specs::convert::FromSpecImpl<[u8; 4]> for Rgba {
    open spec fn obeys_from_spec() -> bool {
        true
    }

    open spec fn from_spec(arr: [u8; 4]) -> Self {
        rgba_of(arr@[0], arr@[1], arr@[2], arr@[3])
    }
}

impl From<[u8; 3]> for Rgba {
    /// The opaque colour whose red, green and blue are the three bytes.
    fn from(arr: [u8; 3]) -> (c: Self) {
        let c = Self::from_rgb(arr[0], arr[1], arr[2]);
        assert(c@ == (arr@[0], arr@[1], arr@[2], 255u8));
        c
    }
}

impl vstd::std_specs::convert::FromSpecImpl<[u8; 3]> for Rgba {
    open spec fn obeys_from_spec() -> bool {
        true
    }

    open spec fn from_spec(arr: [u8; 3]) -> Self {
        rgba_of(arr@[0], arr@[1], arr@[2], 255u8)
    }
}

impl From<Rgba> for [u8; 4] {
    /// The four channels, red first.
    fn from(c: Rgba) -> (r: [u8; 4]) {
        let r = [c.0, c.1, c.2, c.3];
        assert(r@ =~= seq![c@.0, c@.1, c@.2, c@.3]);
        r
    }
}

impl vstd::std_specs::convert::FromSpecImpl<Rgba> for [u8; 4] {
    open spec fn obeys_from_spec() -> bool {
        true
    }

    open spec fn from_spec(c: Rgba) -> Self {
        choose|a: [u8; 4]| #[trigger] a@ == seq![c@.0, c@.1, c@.2, c@.3]
    }
}

/// Channel `k` (0 red, 1 green, 2 blue, 3 alpha) of `c`.
pub open spec fn channel(c: Rgba, k: int) -> u8 {
    if k == 0 { c@.0 } else if k == 1 { c@.1 } else if k == 2 { c@.2 } else { c@.3 }
}

/// The pixels laid out as bytes: four per pixel, red first.
pub open spec fn pixel_bytes(p: Seq<Rgba>) -> Seq<u8> {
    Seq::new(4 * p.len(), |k: int| channel(p[k / 4], k % 4))
}

/// The bytes of pixels: pixel `i` takes bytes `4i` to `4i + 3`, red, green, blue, then alpha.
pub proof fn lemma_pixel_bytes_layout(p: Seq<Rgba>, i: int)
    requires
        0 <= i < p.len(),
    ensures
        pixel_bytes(p).len() == 4 * p.len(),
        pixel_bytes(p)[4 * i] == p[i]@.0,
        pixel_bytes(p)[4 * i + 1] == p[i]@.1,
        pixel_bytes(p)[4 * i + 2] == p[i]@.2,
        pixel_bytes(p)[4 * i + 3] == p[i]@.3,
{
    assert((4 * i) / 4 == i && (4 * i + 1) / 4 == i && (4 * i + 2) / 4 == i && (4 * i + 3) / 4 == i);
    assert((4 * i) % 4 == 0 && (4 * i + 1) % 4 == 1 && (4 * i + 2) % 4 == 2 && (4 * i + 3) % 4 == 3);
}

/// Laying pixels out as bytes loses nothing: equal byte runs come from equal pixels, so an
/// image made from the bytes of another holds the same pixels.
pub proof fn lemma_pixel_bytes_injective(p: Seq<Rgba>, q: Seq<Rgba>)
    requires
        pixel_bytes(p) == pixel_bytes(q),
    ensures
        p == q,
{
    assert(pixel_bytes(p).len() == 4 * p.len());
    assert(p.len() == q.len());
    assert forall|i: int| 0 <= i < p.len() implies p[i] == q[i] by {
        assert forall|c: int| 0 <= c < 4 implies channel(p[i], c) == channel(q[i], c) by {
            let k = 4 * i + c;
            assert(k / 4 == i && k % 4 == c);
            assert(pixel_bytes(p)[k] == channel(p[k / 4], k % 4));
            assert(pixel_bytes(q)[k] == channel(q[k / 4], k % 4));
        }
        assert(channel(p[i], 0) == channel(q[i], 0));
        assert(channel(p[i], 1) == channel(q[i], 1));
        assert(channel(p[i], 2) == channel(q[i], 2));
        assert(channel(p[i], 3) == channel(q[i], 3));
        assert(p[i]@ == q[i]@);
        lemma_rgba_view_injective(p[i], q[i]);
    }
    assert(p =~= q);
}

/// The pixel at position `i` of `px`, or `None` past the end.
pub open spec fn pixel_at(px: Seq<Rgba>, i: int) -> Option<Rgba> {
    if 0 <= i < px.len() { Some(px[i]) } else { None }
}

/// `px` with the pixel at position `i` replaced by `p`; unchanged past the end.
pub open spec fn with_pixel(px: Seq<Rgba>, i: int, p: Rgba) -> Seq<Rgba> {
    if 0 <= i < px.len() { px.update(i, p) } else { px }
}

/// Reading a position after setting it gives the pixel set there (nothing past the end),
/// and every other position reads as before; the size never changes.
pub proof fn lemma_set_then_get(px: Seq<Rgba>, i: int, p: Rgba, j: int)
    ensures
        with_pixel(px, i, p).len() == px.len(),
        pixel_at(with_pixel(px, i, p), i) == (if 0 <= i < px.len() { Some(p) } else { None::<Rgba> }),
        j != i ==> pixel_at(with_pixel(px, i, p), j) == pixel_at(px, j),
{
}

/// An image of `width` by `height` pixels, stored row by row.
#[derive(Clone)]
pub struct RgbaBuffer {
    width: u32,
    height: u32,
    pixels: Vec<Rgba>,
}

impl RgbaBuffer {
    pub closed spec fn spec_width(&self) -> u32 {
        self.width
    }

    pub closed spec fn spec_height(&self) -> u32 {
        self.height
    }

    /// The pixels, row by row.
    pub closed spec fn pixels(&self) -> Seq<Rgba> {
        self.pixels@
    }

    /// The buffer's invariant: it holds exactly `width * height` pixels. The constructors
    /// establish it and every method that changes the buffer keeps it.
    pub open spec fn wf(&self) -> bool {
        self.pixels().len() == self.spec_width() * self.spec_height()
    }

    /// An image of the given size, all transparent black.
    pub fn new(width: u32, height: u32) -> (b: Self)
        requires
            width * height <= usize::MAX,
        ensures
            b.spec_width() == width,
            b.spec_height() == height,
            b.pixels().len() == width * height,
            b.wf(),
            forall|i: int| 0 <= i < b.pixels().len() ==> #[trigger] b.pixels()[i]@ == (0u8, 0u8, 0u8, 0u8),
    {
        let n = (width as usize) * (height as usize);
        let mut pixels: Vec<Rgba> = Vec::with_capacity(n);
        let mut k: usize = 0;
        while k < n
            invariant
                k <= n,
                pixels@.len() == k,
                forall|i: int| 0 <= i < k ==> #[trigger] pixels@[i]@ == (0u8, 0u8, 0u8, 0u8),
            decreases n - k,
        {
            pixels.push(Rgba::default());
            k = k + 1;
        }
        Self { width, height, pixels }
    }

    /// An image of the given size from its bytes (four per pixel, red first), when there are
    /// exactly as many as it needs.
    pub fn from_raw(width: u32, height: u32, bytes: Vec<u8>) -> (r: Option<Self>)
        requires
            width * height * 4 <= u32::MAX,
        ensures
            r is Some <==> bytes@.len() == width * height * 4,
            r matches Some(b) ==> b.spec_width() == width && b.spec_height() == height && pixel_bytes(b.pixels()) == bytes@
                && b.pixels().len() == width * height && b.wf(),
    {
        let total = width * height * 4;
        if bytes.len() != total as usize {
            return None;
        }
        let n = bytes.len() / 4;
        assert(n * 4 == bytes@.len()) by (nonlinear_arith)
            requires bytes@.len() == width * height * 4, n == bytes@.len() / 4;
        let blen = bytes.len();
        let mut pixels: Vec<Rgba> = Vec::with_capacity(n);
        let mut k: usize = 0;
        while k < n
            invariant
                k <= n,
                n * 4 == bytes@.len(),
                blen == bytes@.len(),
                pixels@.len() == k,
                forall|i: int| 0 <= i < k ==> #[trigger] pixels@[i]@ == (bytes@[4 * i], bytes@[4 * i + 1], bytes@[4 * i + 2], bytes@[4 * i + 3]),
            decreases n - k,
        {
            assert(4 * k + 3 < n * 4) by (nonlinear_arith)
                requires k < n;
            pixels.push(Rgba::new(bytes[4 * k], bytes[4 * k + 1], bytes[4 * k + 2], bytes[4 * k + 3]));
            k = k + 1;
        }
        let b = Self { width, height, pixels };
        assert(pixel_bytes(b.pixels()) =~= bytes@) by {
            assert forall|j: int| 0 <= j < bytes@.len() implies #[trigger] pixel_bytes(b.pixels())[j] == bytes@[j] by {
                let i = j / 4;
                assert(pixels@[i]@ == (bytes@[4 * i], bytes@[4 * i + 1], bytes@[4 * i + 2], bytes@[4 * i + 3]));
            }
        }
        Some(b)
    }

    /// The pixels as bytes, four per pixel, red first.
    pub fn into_raw(self) -> (r: Vec<u8>)
        ensures
            r@ == pixel_bytes(self.pixels()),
    {
        self.as_bytes()
    }

    pub fn width(&self) -> (r: u32)
        ensures
            r == self.spec_width(),
    {
        self.width
    }

    pub fn height(&self) -> (r: u32)
        ensures
            r == self.spec_height(),
    {
        self.height
    }

    /// The number of pixels.
    pub fn len(&self) -> (r: usize)
        ensures
            r == self.pixels().len(),
    {
        self.pixels.len()
    }

    pub fn is_empty(&self) -> (r: bool)
        ensures
            r == (self.pixels().len() == 0),
    {
        self.pixels.len() == 0
    }

    /// The position of pixel `(x, y)` in the row-by-row order.
    fn coords_to_index(&self, x: u32, y: u32) -> (r: usize)
        requires
            y * self.spec_width() + x <= u32::MAX,
        ensures
            r == y * self.spec_width() + x,
    {
        (y * self.width + x) as usize
    }

    /// The pixel at `(x, y)`, read at position `y * width + x`; `None` past the end.
    pub fn get_pixel(&self, x: u32, y: u32) -> (r: Option<Rgba>)
        requires
            y * self.spec_width() + x <= u32::MAX,
        ensures
            r == pixel_at(self.pixels(), y * self.spec_width() + x),
    {
        self.get_pixel_pos(self.coords_to_index(x, y))
    }

    /// The pixel at `(x, y)` for writing, at position `y * width + x`; `None` past the end.
    pub fn get_pixel_mut(&mut self, x: u32, y: u32) -> (r: Option<&mut Rgba>)
        requires
            y * old(self).spec_width() + x <= u32::MAX,
        ensures
            final(self).spec_width() == old(self).spec_width(),
            final(self).spec_height() == old(self).spec_height(),
            r is Some <==> y * old(self).spec_width() + x < old(self).pixels().len(),
            r is Some ==> *r.unwrap() == old(self).pixels()[y * old(self).spec_width() + x]
                && final(self).pixels() == old(self).pixels().update(y * old(self).spec_width() + x, *final(r.unwrap())),
            r is None ==> final(self).pixels() == old(self).pixels(),
            old(self).wf() ==> final(self).wf(),
    {
        let index = self.coords_to_index(x, y);
        self.get_pixel_pos_mut(index)
    }

    /// Sets the pixel at `(x, y)`, at position `y * width + x`; nothing happens past the end.
    pub fn set_pixel(&mut self, x: u32, y: u32, pixel: Rgba)
        requires
            y * old(self).spec_width() + x <= u32::MAX,
        ensures
            final(self).spec_width() == old(self).spec_width(),
            final(self).spec_height() == old(self).spec_height(),
            final(self).pixels() == with_pixel(old(self).pixels(), y * old(self).spec_width() + x, pixel),
            old(self).wf() ==> final(self).wf(),
            old(self).wf() && x < old(self).spec_width() && y < old(self).spec_height() ==> {
                &&& pixel_at(final(self).pixels(), y * old(self).spec_width() + x) == Some(pixel)
                &&& forall|j: int| j != y * old(self).spec_width() + x
                    ==> #[trigger] pixel_at(final(self).pixels(), j) == pixel_at(old(self).pixels(), j)
            },
    {
        proof {
            let w = old(self).spec_width();
            let h = old(self).spec_height();
            if x < w && y < h {
                assert(y * w + x < w * h) by (nonlinear_arith)
                    requires x < w, y < h;
            }
        }
        let index = self.coords_to_index(x, y);
        self.set_pixel_pos(index, pixel);
    }

    /// The pixel at position `pos`; `None` past the end.
    pub fn get_pixel_pos(&self, pos: usize) -> (r: Option<Rgba>)
        ensures
            r == pixel_at(self.pixels(), pos as int),
    {
        if pos < self.pixels.len() {
            Some(self.pixels[pos])
        } else {
            None
        }
    }

    /// The pixel at position `pos` for writing; `None` past the end.
    pub fn get_pixel_pos_mut(&mut self, pos: usize) -> (r: Option<&mut Rgba>)
        ensures
            final(self).spec_width() == old(self).spec_width(),
            final(self).spec_height() == old(self).spec_height(),
            r is Some <==> pos < old(self).pixels().len(),
            r is Some ==> *r.unwrap() == old(self).pixels()[pos as int]
                && final(self).pixels() == old(self).pixels().update(pos as int, *final(r.unwrap())),
            r is None ==> final(self).pixels() == old(self).pixels(),
            old(self).wf() ==> final(self).wf(),
    {
        if pos < self.pixels.len() {
            Some(&mut self.pixels[pos])
        } else {
            None
        }
    }

    /// Sets the pixel at position `pos`; nothing happens past the end.
    pub fn set_pixel_pos(&mut self, pos: usize, pixel: Rgba)
        ensures
            final(self).spec_width() == old(self).spec_width(),
            final(self).spec_height() == old(self).spec_height(),
            final(self).pixels() == with_pixel(old(self).pixels(), pos as int, pixel),
            old(self).wf() ==> final(self).wf(),
    {
        if pos < self.pixels.len() {
            self.pixels.set(pos, pixel);
        }
    }

    /// The pixels as bytes, four per pixel, red first.
    pub fn as_bytes(&self) -> (r: Vec<u8>)
        ensures
            r@ == pixel_bytes(self.pixels()),
    {
        let n = self.pixels.len();
        let mut out: Vec<u8> = Vec::new();
        let mut k: usize = 0;
        while k < n
            invariant
                k <= n,
                n == self.pixels@.len(),
                out@ == pixel_bytes(self.pixels@.subrange(0, k as int)),
            decreases n - k,
        {
            let p = self.pixels[k];
            let ghost before = out@;
            out.push(p.r());
            out.push(p.g());
            out.push(p.b());
            out.push(p.a());
            proof {
                let done = self.pixels@.subrange(0, k + 1);
                assert(out@ =~= pixel_bytes(done)) by {
                    assert forall|j: int| 0 <= j < 4 * (k + 1) implies #[trigger] out@[j] == pixel_bytes(done)[j] by {
                        if j < 4 * k {
                            assert(done[j / 4] == self.pixels@.subrange(0, k as int)[j / 4]);
                        }
                    }
                }
            }
            k = k + 1;
        }
        assert(self.pixels@.subrange(0, n as int) =~= self.pixels@);
        out
    }

    /// Row `y`: the `width` pixels from position `y * width`.
    pub fn row(&self, y: u32) -> (r: &[Rgba])
        requires
            (y + 1) * self.spec_width() <= self.pixels().len(),
            y * self.spec_width() <= u32::MAX,
        ensures
            r@ == self.pixels().subrange(y * self.spec_width(), (y + 1) * self.spec_width()),
    {
        let start = (y * self.width) as usize;
        let w = self.width;
        assert((y + 1) * w == y * w + w) by (nonlinear_arith);
        let plen = self.pixels.len();
        assert(start + w <= plen);
        let end = start + (w as usize);
        &self.pixels.as_slice()[start..end]
    }

    /// Row `y` for writing: the `width` pixels from position `y * width`.
    pub fn row_mut(&mut self, y: u32) -> (r: &mut [Rgba])
        requires
            (y + 1) * old(self).spec_width() <= old(self).pixels().len(),
            y * old(self).spec_width() <= u32::MAX,
        ensures
            r@ == old(self).pixels().subrange(y * old(self).spec_width(), (y + 1) * old(self).spec_width()),
            final(self).spec_width() == old(self).spec_width(),
            final(self).spec_height() == old(self).spec_height(),
            final(self).pixels() == old(self).pixels().subrange(0, y * old(self).spec_width()) + final(r)@
                + old(self).pixels().subrange((y + 1) * old(self).spec_width(), old(self).pixels().len() as int),
    {
        let start = (y * self.width) as usize;
        let w = self.width as usize;
        assert((y + 1) * self.width == y * self.width + self.width) by (nonlinear_arith);
        let all = self.pixels.as_mut_slice();
        let (_, rest) = all.split_at_mut(start);
        let (mid, _) = rest.split_at_mut(w);
        mid
    }

    /// The image encoded as an 8-bit RGBA PNG file.
    pub fn render_png(&self) -> (r: Result<Vec<u8>, RenderError>)
        ensures
            r is Ok <==> png_encoded(self.spec_width(), self.spec_height(), pixel_bytes(self.pixels())) is Some,
            r matches Ok(v) ==> png_encoded(self.spec_width(), self.spec_height(), pixel_bytes(self.pixels())) == Some(v@),
            r matches Err(e) ==> e == RenderError::Png,
    {
        let bytes = self.as_bytes();
        match png_encode_rgba8(self.width, self.height, bytes.as_slice()) {
            Ok(v) => Ok(v),
            Err(_) => Err(RenderError::Png),
        }
    }
}

/// Why an image could not be rendered.
#[derive(Debug, Clone, Copy, PartialEq, Eq, Structural)]
pub enum RenderError {
    /// The PNG encoder refused the image.
    Png,
}

#[verifier::external_type_specification]
#[verifier::external_body]
pub struct ExPngEncodingError(png::EncodingError);

/// What the PNG encoder writes for an 8-bit RGBA image of `width` by `height` pixels with
/// the bytes `data`, or `None` when it reports an error.
pub uninterp spec fn png_encoded(width: u32, height: u32, data: Seq<u8>) -> Option<Seq<u8>>;

/// Encodes an 8-bit RGBA image with `png::Encoder` into a vector. The contract claims only
/// that the outcome is a function of the size and the bytes; what PNG bytes come out, and
/// on which inputs the encoder refuses, is left to the crate.
#[verifier::external_body]
fn png_encode_rgba8(width: u32, height: u32, data: &[u8]) -> (r: Result<Vec<u8>, png::EncodingError>)
    ensures
        r is Ok <==> png_encoded(width, height, data@) is Some,
        r matches Ok(v) ==> png_encoded(width, height, data@) == Some(v@),
{
    let mut buf = Vec::new();
    {
        let mut encoder = png::Encoder::new(&mut buf, width, height);
        encoder.set_color(png::ColorType::Rgba);
        encoder.set_depth(png::BitDepth::Eight);
        let mut writer = encoder.write_header()?;
        writer.write_image_data(data)?;
    }
    Ok(buf)
}

/// A cursor that fills an image's pixels in order. Its fields are public so that contracts
/// can speak of the value the borrowed image has once the cursor is done.
pub struct RgbaBufferWriter<'a> {
    pub buffer: &'a mut RgbaBuffer,
    pub pos: usize,
}

impl<'a> RgbaBufferWriter<'a> {
    /// The image as it stands now.
    pub open spec fn current(&self) -> RgbaBuffer {
        *self.buffer
    }

    /// A cursor at the first pixel of `buffer`.
    pub fn new(buffer: &'a mut RgbaBuffer) -> (w: Self)
        ensures
            *w.buffer == *old(buffer),
            w.pos == 0,
            *final(w.buffer) == *final(buffer),
    {
        Self { buffer, pos: 0 }
    }

    pub fn width(&self) -> (r: u32)
        ensures
            r == self.current().spec_width(),
    {
        self.buffer.width
    }

    pub fn height(&self) -> (r: u32)
        ensures
            r == self.current().spec_height(),
    {
        self.buffer.height
    }

    /// Writes `pixel` at the cursor and moves on; `false`, with nothing written, once the
    /// image is full.
    pub fn write(&mut self, pixel: Rgba) -> (r: bool)
        ensures
            r == (old(self).pos < old(self).buffer.pixels().len()),
            final(self).buffer.spec_width() == old(self).buffer.spec_width(),
            final(self).buffer.spec_height() == old(self).buffer.spec_height(),
            r ==> final(self).buffer.pixels() == old(self).buffer.pixels().update(old(self).pos as int, pixel)
                && final(self).pos == old(self).pos + 1,
            !r ==> final(self).buffer.pixels() == old(self).buffer.pixels() && final(self).pos == old(self).pos,
            old(self).buffer.wf() ==> final(self).buffer.wf(),
            *final(final(self).buffer) == *final(old(self).buffer),
    {
        if self.pos >= self.buffer.pixels.len() {
            return false;
        }
        self.buffer.pixels.set(self.pos, pixel);
        self.pos = self.pos + 1;
        true
    }

    /// Writes as much of `row` as fits from the cursor on, and moves past it.
    pub fn write_row(&mut self, row: &[Rgba])
        requires
            old(self).pos <= old(self).buffer.pixels().len(),
            old(self).pos + row@.len() <= usize::MAX,
        ensures
            ({
                let count = if old(self).pos + row@.len() <= old(self).buffer.pixels().len() { row@.len() as int } else { old(self).buffer.pixels().len() - old(self).pos };
                &&& final(self).pos == old(self).pos + count
                &&& final(self).buffer.pixels() == old(self).buffer.pixels().subrange(0, old(self).pos as int) + row@.subrange(0, count)
                    + old(self).buffer.pixels().subrange(old(self).pos + count, old(self).buffer.pixels().len() as int)
            }),
            final(self).buffer.spec_width() == old(self).buffer.spec_width(),
            final(self).buffer.spec_height() == old(self).buffer.spec_height(),
            old(self).buffer.wf() ==> final(self).buffer.wf(),
            *final(final(self).buffer) == *final(old(self).buffer),
    {
        let len = self.buffer.pixels.len();
        let end = if self.pos + row.len() < len { self.pos + row.len() } else { len };
        let count = end - self.pos;
        let start = self.pos;
        let ghost before = self.buffer.pixels@;
        let mut k: usize = 0;
        while k < count
            invariant
                k <= count,
                start + count <= len,
                count <= row@.len(),
                len == before.len(),
                self.pos == start,
                self.buffer.width == old(self).buffer.width,
                self.buffer.height == old(self).buffer.height,
                self.buffer.pixels@ == before.subrange(0, start as int) + row@.subrange(0, k as int) + before.subrange(start + k, len as int),
                *final(self.buffer) == *final(old(self).buffer),
            decreases count - k,
        {
            self.buffer.pixels.set(start + k, row[k]);
            k = k + 1;
            assert(self.buffer.pixels@ =~= before.subrange(0, start as int) + row@.subrange(0, k as int) + before.subrange(start + k, len as int));
        }
        self.pos = start + count;
    }

    /// How many pixels are left to write.
    pub fn remaining(&self) -> (r: usize)
        requires
            self.pos <= self.current().pixels().len(),
        ensures
            r == self.current().pixels().len() - self.pos,
    {
        self.buffer.pixels.len() - self.pos
    }

    /// Whether the image is full.
    pub fn is_done(&self) -> (r: bool)
        ensures
            r == (self.pos >= self.current().pixels().len()),
    {
        self.pos >= self.buffer.pixels.len()
    }
}

} // verus!
