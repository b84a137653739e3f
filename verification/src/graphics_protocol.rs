//! Escape sequences that send pixel images to terminals: the Kitty graphics
//! protocol, Sixel and iTerm2 inline images, and the capability query.
//! The emitters are pure: image data in, bytes to write out.

use vstd::prelude::*;
use base64::Engine as _;
use vstd::string::StringSliceAdditionalSpecFns;
use crate::text::{chars_of, decimal, decimal_chars};

verus! {

/// How the bytes of an image are laid out.
#[derive(Debug, Clone, Copy, PartialEq, Eq, Structural)]
pub enum ImageFormat {
    /// Three bytes per pixel.
    Rgb,
    /// Four bytes per pixel.
    Rgba,
    /// An encoded PNG file.
    Png,
}

/// The Kitty format code of a format.
pub open spec fn format_code(f: ImageFormat) -> nat {
    match f {
        ImageFormat::Rgb => 24,
        ImageFormat::Rgba => 32,
        ImageFormat::Png => 100,
    }
}

impl ImageFormat {
    /// The Kitty `f=` code: 24 for RGB, 32 for RGBA, 100 for PNG.
    fn kitty_code(self) -> (c: u32)
        ensures
            c as nat == format_code(self),
    {
        match self {
            ImageFormat::Rgb => 24,
            ImageFormat::Rgba => 32,
            ImageFormat::Png => 100,
        }
    }
}

/// A pixel graphics protocol.
#[derive(Debug, Clone, Copy, PartialEq, Eq, Structural)]
pub enum GraphicsProtocol {
    Kitty,
    Sixel,
    Iterm2,
}

/// An image to send.
#[derive(Debug, Clone)]
pub struct GraphicsImage<'a> {
    pub format: ImageFormat,
    pub width: u32,
    pub height: u32,
    /// Raw pixels (RGB or RGBA) or PNG file bytes.
    pub data: &'a [u8],
}

// ---------------------------------------------------------------------------
// Bytes and text
// ---------------------------------------------------------------------------

/// The bytes of ASCII text.
pub open spec fn ascii(s: Seq<char>) -> Seq<u8> {
    s.map_values(|c: char| c as u8)
}

/// Every character is ASCII.
pub open spec fn is_ascii_text(s: Seq<char>) -> bool {
    forall|i: int| 0 <= i < s.len() ==> (#[trigger] s[i] as u32) < 128
}

/// The decimal digits of `n`, as bytes.
pub open spec fn dec(n: nat) -> Seq<u8> {
    ascii(decimal(n))
}

proof fn lemma_decimal_is_ascii(n: nat)
    ensures
        is_ascii_text(decimal(n)),
    decreases n,
{
    if n >= 10 {
        lemma_decimal_is_ascii(n / 10);
    }
}

fn push_ascii(out: &mut Vec<u8>, s: &str)
    requires
        is_ascii_text(s@),
    ensures
        final(out)@ == old(out)@ + ascii(s@),
{
    let cs = chars_of(s);
    let mut i: usize = 0;
    while i < cs.len()
        invariant
            i <= cs@.len(),
            cs@ == s@,
            is_ascii_text(s@),
            out@ == old(out)@ + ascii(cs@.subrange(0, i as int)),
        decreases cs@.len() - i,
    {
        let c = cs[i];
        assert((c as u32) < 128);
        out.push(c as u8);
        assert(ascii(cs@.subrange(0, i + 1)) =~= ascii(cs@.subrange(0, i as int)).push(c as u8));
        i += 1;
    }
    assert(cs@.subrange(0, cs@.len() as int) =~= cs@);
}

fn push_decimal(out: &mut Vec<u8>, n: u64)
    ensures
        final(out)@ == old(out)@ + dec(n as nat),
{
    let ds = decimal_chars(n);
    proof {
        lemma_decimal_is_ascii(n as nat);
    }
    let mut i: usize = 0;
    while i < ds.len()
        invariant
            i <= ds@.len(),
            ds@ == decimal(n as nat),
            is_ascii_text(ds@),
            out@ == old(out)@ + ascii(ds@.subrange(0, i as int)),
        decreases ds@.len() - i,
    {
        let c = ds[i];
        assert((c as u32) < 128);
        out.push(c as u8);
        assert(ascii(ds@.subrange(0, i + 1)) =~= ascii(ds@.subrange(0, i as int)).push(c as u8));
        i += 1;
    }
    assert(ds@.subrange(0, ds@.len() as int) =~= ds@);
}

fn push_slice(out: &mut Vec<u8>, bytes: &[u8], from: usize, to: usize)
    requires
        from <= to <= bytes@.len(),
    ensures
        final(out)@ == old(out)@ + bytes@.subrange(from as int, to as int),
{
    let mut i = from;
    while i < to
        invariant
            from <= i <= to <= bytes@.len(),
            out@ == old(out)@ + bytes@.subrange(from as int, i as int),
        decreases to - i,
    {
        out.push(bytes[i]);
        assert(old(out)@ + bytes@.subrange(from as int, i + 1) =~= (old(out)@ + bytes@.subrange(from as int, i as int)).push(
            bytes@[i as int],
        ));
        i += 1;
    }
}

// ---------------------------------------------------------------------------
// Base64
// ---------------------------------------------------------------------------

/// The character of the standard base64 alphabet for the six-bit value `n`:
/// `A`-`Z`, `a`-`z`, `0`-`9`, `+`, `/` (RFC 4648, table 1).
pub open spec fn base64_digit(n: int) -> char {
    if n < 26 {
        (65 + n) as char
    } else if n < 52 {
        (97 + n - 26) as char
    } else if n < 62 {
        (48 + n - 52) as char
    } else if n == 62 {
        '+'
    } else {
        '/'
    }
}

/// The standard base64 encoding with padding (RFC 4648, section 4): each
/// group of three bytes gives four characters, six bits each, high bits
/// first; a final group of one or two bytes is padded with `=` to four.
pub open spec fn base64_standard(d: Seq<u8>) -> Seq<char>
    decreases d.len(),
{
    if d.len() == 0 {
        Seq::empty()
    } else if d.len() == 1 {
        let a = d[0] as int;
        seq![base64_digit(a / 4), base64_digit((a % 4) * 16), '=', '=']
    } else if d.len() == 2 {
        let a = d[0] as int;
        let b = d[1] as int;
        seq![base64_digit(a / 4), base64_digit((a % 4) * 16 + b / 16), base64_digit((b % 16) * 4), '=']
    } else {
        let a = d[0] as int;
        let b = d[1] as int;
        let c = d[2] as int;
        seq![
            base64_digit(a / 4),
            base64_digit((a % 4) * 16 + b / 16),
            base64_digit((b % 16) * 4 + c / 64),
            base64_digit(c % 64),
        ] + base64_standard(d.skip(3))
    }
}

/// The length of the padded base64 encoding of `n` bytes.
pub open spec fn base64_len(n: nat) -> nat {
    4 * ((n + 2) / 3)
}

/// The padded encoding of `d` is `4 * ceil(n / 3)` ASCII characters.
pub proof fn lemma_base64_shape(d: Seq<u8>)
    ensures
        base64_standard(d).len() == base64_len(d.len()),
        is_ascii_text(base64_standard(d)),
    decreases d.len(),
{
    if d.len() > 2 {
        lemma_base64_shape(d.skip(3));
        let a = d[0] as int;
        let b = d[1] as int;
        let c = d[2] as int;
        let head = seq![
            base64_digit(a / 4),
            base64_digit((a % 4) * 16 + b / 16),
            base64_digit((b % 16) * 4 + c / 64),
            base64_digit(c % 64),
        ];
        assert(is_ascii_text(head));
        let r = base64_standard(d.skip(3));
        assert(base64_standard(d) == head + r);
        assert forall|i: int| 0 <= i < (head + r).len() implies ((head + r)[i] as u32) < 128 by {
            if i >= 4 {
                assert((head + r)[i] == r[i - 4]);
            }
        }
    } else if d.len() == 1 {
        let a = d[0] as int;
        assert(is_ascii_text(seq![base64_digit(a / 4), base64_digit((a % 4) * 16), '=', '=']));
    } else if d.len() == 2 {
        let a = d[0] as int;
        let b = d[1] as int;
        assert(is_ascii_text(
            seq![base64_digit(a / 4), base64_digit((a % 4) * 16 + b / 16), base64_digit((b % 16) * 4), '='],
        ));
    }
}

/// `base64::engine::general_purpose::STANDARD.encode(data)`: the padded
/// standard base64 encoding of `data` (the crate's `STANDARD` engine uses
/// the standard alphabet with padding). The crate panics when the encoded
/// length overflows `usize`; that input is excluded.
#[verifier::external_body]
fn encode_base64(data: &[u8]) -> (s: String)
    requires
        base64_len(data@.len()) <= usize::MAX,
    ensures
        s@ == base64_standard(data@),
{
    base64::engine::general_purpose::STANDARD.encode(data)
}

fn ascii_string_bytes(s: &String) -> (b: Vec<u8>)
    requires
        is_ascii_text(s@),
    ensures
        b@ == ascii(s@),
{
    let mut b: Vec<u8> = Vec::new();
    push_ascii(&mut b, s.as_str());
    b
}

// ---------------------------------------------------------------------------
// Kitty
// ---------------------------------------------------------------------------

/// Base64 characters per Kitty escape.
pub const KITTY_CHUNK: usize = 4096;

/// `ESC _ G <control> ; <payload> ESC \`.
pub open spec fn kitty_escape(control: Seq<u8>, payload: Seq<u8>) -> Seq<u8> {
    seq![0x1bu8, 0x5fu8, 0x47u8] + control + seq![0x3bu8] + payload + seq![0x1bu8, 0x5cu8]
}

/// `0` for the last chunk, `1` for a chunk that more follow.
pub open spec fn more_flag(more: bool) -> Seq<u8> {
    if more {
        seq![0x31u8]
    } else {
        seq![0x30u8]
    }
}

/// The control block of the first chunk: transmit and display, format,
/// size, id and continuation flag.
pub open spec fn kitty_first_control(f: ImageFormat, w: u32, h: u32, id: u32, more: bool) -> Seq<u8> {
    ascii("a=T,f="@) + dec(format_code(f)) + ascii(",s="@) + dec(w as nat) + ascii(",v="@) + dec(h as nat) + ascii(
        ",i="@,
    ) + dec(id as nat) + ascii(",m="@) + more_flag(more)
}

/// The number of chunks of `n` base64 bytes.
pub open spec fn chunk_count(n: nat) -> nat {
    ((n + KITTY_CHUNK - 1) / (KITTY_CHUNK as int)) as nat
}

/// The chunk `i` of the payload.
pub open spec fn chunk_of(enc: Seq<u8>, i: nat) -> Seq<u8> {
    let start = i * KITTY_CHUNK;
    let end = if start + KITTY_CHUNK <= enc.len() {
        start + KITTY_CHUNK
    } else {
        enc.len() as int
    };
    enc.subrange(start as int, end)
}

/// The control block of chunk `i` out of `n`: the first carries the full
/// block, the others only the continuation flag.
pub open spec fn chunk_control(f: ImageFormat, w: u32, h: u32, id: u32, i: nat, n: nat) -> Seq<u8> {
    let more = i + 1 < n;
    if i == 0 {
        kitty_first_control(f, w, h, id, more)
    } else {
        ascii("m="@) + more_flag(more)
    }
}

/// The escapes for the chunks `i ..` of the payload.
pub open spec fn kitty_chunks(enc: Seq<u8>, f: ImageFormat, w: u32, h: u32, id: u32, i: nat) -> Seq<u8>
    decreases chunk_count(enc.len()) - i,
{
    let n = chunk_count(enc.len());
    if i >= n {
        Seq::empty()
    } else {
        kitty_escape(chunk_control(f, w, h, id, i, n), chunk_of(enc, i)) + kitty_chunks(enc, f, w, h, id, i + 1)
    }
}

/// What `kitty_write` sends for an image and id.
pub open spec fn kitty_sequence(f: ImageFormat, w: u32, h: u32, data: Seq<u8>, id: u32) -> Seq<u8> {
    kitty_chunks(ascii(base64_standard(data)), f, w, h, id, 0)
}

proof fn lemma_chunk_start(i: nat, n: nat)
    requires
        n > 0,
        i < chunk_count(n),
    ensures
        i * KITTY_CHUNK < n,
        chunk_count(n) == (n - 1) / (KITTY_CHUNK as int) + 1,
{
    assert(chunk_count(n) == (n - 1) / 4096 + 1);
    assert(i * 4096 <= n - 1) by (nonlinear_arith)
        requires
            i <= (n - 1) / 4096,
            n >= 1,
    ;
}

/// Appends the control block of chunk `i` out of `n`.
fn push_chunk_control(out: &mut Vec<u8>, image: &GraphicsImage, id: u32, i: usize, n: usize)
    ensures
        final(out)@ == old(out)@ + chunk_control(image.format, image.width, image.height, id, i as nat, n as nat),
{
    proof {
        reveal_strlit("a=T,f=");
        reveal_strlit(",s=");
        reveal_strlit(",v=");
        reveal_strlit(",i=");
        reveal_strlit(",m=");
        reveal_strlit("m=");
        reveal_strlit("0");
        reveal_strlit("1");
    }
    let more = i < n && n - i > 1;
    let ghost start = out@;
    if i == 0 {
        push_ascii(out, "a=T,f=");
        push_decimal(out, image.format.kitty_code() as u64);
        push_ascii(out, ",s=");
        push_decimal(out, image.width as u64);
        push_ascii(out, ",v=");
        push_decimal(out, image.height as u64);
        push_ascii(out, ",i=");
        push_decimal(out, id as u64);
        push_ascii(out, ",m=");
    } else {
        push_ascii(out, "m=");
    }
    if more {
        push_ascii(out, "1");
    } else {
        push_ascii(out, "0");
    }
    assert(out@ =~= start + chunk_control(image.format, image.width, image.height, id, i as nat, n as nat));
}

/// Appends the escape of chunk `i` of the base64 payload `enc`.
fn push_kitty_chunk(out: &mut Vec<u8>, image: &GraphicsImage, id: u32, enc: &[u8], i: usize, count: usize)
    requires
        enc@.len() > 0,
        count == chunk_count(enc@.len()),
        i < count,
    ensures
        final(out)@ == old(out)@ + kitty_escape(
            chunk_control(image.format, image.width, image.height, id, i as nat, count as nat),
            chunk_of(enc@, i as nat),
        ),
{
    proof {
        reveal_strlit("\x1b_G");
        reveal_strlit(";");
        reveal_strlit("\x1b\\");
        lemma_chunk_start(i as nat, enc@.len());
    }
    let n = enc.len();
    let ghost before = out@;
    push_ascii(out, "\x1b_G");
    let ghost mid = out@;
    push_chunk_control(out, image, id, i, count);
    let ghost control = out@.subrange(mid.len() as int, out@.len() as int);
    assert(control =~= chunk_control(image.format, image.width, image.height, id, i as nat, count as nat));
    push_ascii(out, ";");
    let from = i * KITTY_CHUNK;
    let to = if n - from >= KITTY_CHUNK {
        from + KITTY_CHUNK
    } else {
        n
    };
    push_slice(out, enc, from, to);
    push_ascii(out, "\x1b\\");
    assert(out@ =~= before + kitty_escape(control, chunk_of(enc@, i as nat)));
}

/// The Kitty escapes that transmit and display `image` under `id`: the
/// standard base64 of the data, in chunks of 4096 characters; nothing for
/// empty data.
pub fn kitty_write(image: &GraphicsImage, id: u32) -> (out: Vec<u8>)
    requires
        base64_len(image.data@.len()) <= usize::MAX,
    ensures
        out@ == kitty_sequence(image.format, image.width, image.height, image.data@, id),
{
    let encoded = encode_base64(image.data);
    proof {
        lemma_base64_shape(image.data@);
    }
    let bytes = ascii_string_bytes(&encoded);
    let ghost enc = bytes@;
    let n = bytes.len();
    let mut out: Vec<u8> = Vec::new();
    if n == 0 {
        assert(chunk_count(0) == 0);
        return out;
    }
    let count = (n - 1) / KITTY_CHUNK + 1;
    proof {
        lemma_chunk_start(0, n as nat);
    }
    let mut i: usize = 0;
    assert(out@ + kitty_chunks(enc, image.format, image.width, image.height, id, 0) =~= kitty_chunks(
        enc,
        image.format,
        image.width,
        image.height,
        id,
        0,
    ));
    while i < count
        invariant
            i <= count,
            count == chunk_count(n as nat),
            n == enc.len(),
            bytes@ == enc,
            n > 0,
            out@ + kitty_chunks(enc, image.format, image.width, image.height, id, i as nat) == kitty_chunks(
                enc,
                image.format,
                image.width,
                image.height,
                id,
                0,
            ),
        decreases count - i,
    {
        let ghost before = out@;
        push_kitty_chunk(&mut out, image, id, bytes.as_slice(), i, count);
        proof {
            let esc = kitty_escape(
                chunk_control(image.format, image.width, image.height, id, i as nat, count as nat),
                chunk_of(enc, i as nat),
            );
            assert(before + kitty_chunks(enc, image.format, image.width, image.height, id, i as nat) =~= before + esc
                + kitty_chunks(enc, image.format, image.width, image.height, id, (i + 1) as nat));
        }
        i += 1;
    }
    assert(out@ + Seq::<u8>::empty() =~= out@);
    out
}

/// `ESC _ G a=d,d=i,i=<id> ESC \`: delete the image with `id`.
pub fn kitty_delete(id: u32) -> (out: Vec<u8>)
    ensures
        out@ == ascii("\x1b_Ga=d,d=i,i="@) + dec(id as nat) + ascii("\x1b\\"@),
{
    proof {
        reveal_strlit("\x1b_Ga=d,d=i,i=");
        reveal_strlit("\x1b\\");
    }
    let mut out: Vec<u8> = Vec::new();
    push_ascii(&mut out, "\x1b_Ga=d,d=i,i=");
    push_decimal(&mut out, id as u64);
    push_ascii(&mut out, "\x1b\\");
    out
}

/// `ESC _ G a=d,d=A ESC \`: delete every image.
pub fn kitty_delete_all() -> (out: Vec<u8>)
    ensures
        out@ == ascii("\x1b_Ga=d,d=A\x1b\\"@),
{
    proof {
        reveal_strlit("\x1b_Ga=d,d=A\x1b\\");
    }
    let mut out: Vec<u8> = Vec::new();
    push_ascii(&mut out, "\x1b_Ga=d,d=A\x1b\\");
    out
}

// ---------------------------------------------------------------------------
// Sixel
// ---------------------------------------------------------------------------

/// The most colour registers a Sixel image gets.
pub const SIXEL_MAX_COLORS: usize = 256;

/// Bytes per pixel of a raw format.
pub open spec fn bytes_per_pixel(f: ImageFormat) -> nat {
    match f {
        ImageFormat::Rgb => 3,
        ImageFormat::Rgba => 4,
        ImageFormat::Png => 0,
    }
}

/// The colour of pixel `i`: its first three bytes.
pub open spec fn pixel_color(data: Seq<u8>, bpp: nat, i: int) -> (u8, u8, u8) {
    (data[i * bpp], data[i * bpp + 1], data[i * bpp + 2])
}

/// The colours of the first `n` pixels.
pub open spec fn pixel_colors(data: Seq<u8>, bpp: nat, n: nat) -> Seq<(u8, u8, u8)> {
    Seq::new(n, |i: int| pixel_color(data, bpp, i))
}

/// The distinct colours of `cs`, in order of first appearance.
pub open spec fn distinct_colors(cs: Seq<(u8, u8, u8)>) -> Seq<(u8, u8, u8)>
    decreases cs.len(),
{
    if cs.len() == 0 {
        Seq::empty()
    } else {
        let d = distinct_colors(cs.drop_last());
        if d.contains(cs.last()) {
            d
        } else {
            d.push(cs.last())
        }
    }
}

/// The colour registers of an image: its first 256 distinct colours, in
/// order of first appearance.
pub open spec fn sixel_palette(cs: Seq<(u8, u8, u8)>) -> Seq<(u8, u8, u8)> {
    let d = distinct_colors(cs);
    if d.len() <= SIXEL_MAX_COLORS {
        d
    } else {
        d.subrange(0, SIXEL_MAX_COLORS as int)
    }
}

/// `k` is the first position of `c` in `p`.
pub open spec fn is_first_at(p: Seq<(u8, u8, u8)>, c: (u8, u8, u8), k: int) -> bool {
    &&& 0 <= k < p.len()
    &&& p[k] == c
    &&& forall|q: int| 0 <= q < k ==> p[q] != c
}

/// The register of colour `c`: its position in the palette, or 0 (the first
/// register) for a colour that did not fit.
pub open spec fn color_register(p: Seq<(u8, u8, u8)>, c: (u8, u8, u8)) -> int {
    if exists|k: int| is_first_at(p, c, k) {
        choose|k: int| is_first_at(p, c, k)
    } else {
        0
    }
}

/// The register of every pixel.
pub open spec fn sixel_indices(cs: Seq<(u8, u8, u8)>) -> Seq<u16> {
    Seq::new(cs.len(), |j: int| color_register(sixel_palette(cs), cs[j]) as u16)
}

/// A colour component in Sixel's 0..=100 scale.
pub open spec fn percent(v: u8) -> nat {
    (v as nat * 100) / 255
}

/// `#<n>;2;<r>;<g>;<b>`: the definition of register `n`.
pub open spec fn register_def(p: Seq<(u8, u8, u8)>, n: int) -> Seq<u8> {
    ascii("#"@) + dec(n as nat) + ascii(";2;"@) + dec(percent(p[n].0)) + ascii(";"@) + dec(percent(p[n].1))
        + ascii(";"@) + dec(percent(p[n].2))
}

/// The definitions of the first `k` registers.
pub open spec fn palette_defs(p: Seq<(u8, u8, u8)>, k: nat) -> Seq<u8>
    decreases k,
{
    if k == 0 {
        Seq::empty()
    } else {
        palette_defs(p, (k - 1) as nat) + register_def(p, k - 1)
    }
}

/// `2^r`.
pub open spec fn row_bit(r: nat) -> nat
    decreases r,
{
    if r == 0 {
        1
    } else {
        2 * row_bit((r - 1) as nat)
    }
}

/// The bits of column `x` in the band at row `y` for register `n`: bit `r`
/// is set when the pixel `r` rows down has that register; `rows` rows.
pub open spec fn band_bits(idx: Seq<u16>, w: nat, y: nat, x: nat, n: nat, rows: nat) -> nat
    decreases rows,
{
    if rows == 0 {
        0
    } else {
        let r = (rows - 1) as nat;
        band_bits(idx, w, y, x, n, r) + if idx[((y + r) * w + x) as int] as nat == n {
            row_bit(r)
        } else {
            0
        }
    }
}

/// `#<n>`, one sixel byte per column, then `$`.
pub open spec fn sixel_row(idx: Seq<u16>, w: nat, y: nat, band: nat, n: nat) -> Seq<u8> {
    ascii("#"@) + dec(n) + Seq::new(w, |x: int| (0x3f + band_bits(idx, w, y, x as nat, n, band)) as u8) + seq![
        0x24u8,
    ]
}

/// The rows of the first `k` registers of one band.
pub open spec fn band_rows(idx: Seq<u16>, w: nat, y: nat, band: nat, k: nat) -> Seq<u8>
    decreases k,
{
    if k == 0 {
        Seq::empty()
    } else {
        band_rows(idx, w, y, band, (k - 1) as nat) + sixel_row(idx, w, y, band, (k - 1) as nat)
    }
}

/// The height of the band at row `y`: six rows, or what is left.
pub open spec fn band_height(h: nat, y: nat) -> nat {
    if h - y < 6 {
        (h - y) as nat
    } else {
        6
    }
}

/// The bands from row `y` down, each closed by `-`.
pub open spec fn sixel_bands(idx: Seq<u16>, w: nat, h: nat, colors: nat, y: nat) -> Seq<u8>
    decreases h - y,
{
    if y >= h {
        Seq::empty()
    } else {
        band_rows(idx, w, y, band_height(h, y), colors) + seq![0x2du8] + sixel_bands(
            idx,
            w,
            h,
            colors,
            y + band_height(h, y),
        )
    }
}

/// `DCS q`, the register definitions, the bands, `ST`.
pub open spec fn sixel_body(cs: Seq<(u8, u8, u8)>, w: nat, h: nat) -> Seq<u8> {
    let p = sixel_palette(cs);
    ascii("\x1bPq"@) + palette_defs(p, p.len()) + sixel_bands(sixel_indices(cs), w, h, p.len(), 0) + ascii(
        "\x1b\\"@,
    )
}

/// What `sixel_write` sends: nothing for PNG, for an empty image or for
/// data shorter than `width * height` pixels; else the Sixel image.
pub open spec fn sixel_sequence(f: ImageFormat, w: u32, h: u32, data: Seq<u8>) -> Seq<u8> {
    let bpp = bytes_per_pixel(f);
    if f == ImageFormat::Png || w == 0 || h == 0 || data.len() < w * h * bpp {
        Seq::empty()
    } else {
        sixel_body(pixel_colors(data, bpp, (w * h) as nat), w as nat, h as nat)
    }
}

proof fn lemma_distinct_step(cs: Seq<(u8, u8, u8)>, m: int)
    requires
        0 <= m < cs.len(),
    ensures
        distinct_colors(cs.take(m + 1)) == (if distinct_colors(cs.take(m)).contains(cs[m]) {
            distinct_colors(cs.take(m))
        } else {
            distinct_colors(cs.take(m)).push(cs[m])
        }),
{
    assert(cs.take(m + 1).drop_last() =~= cs.take(m));
}

/// One more pixel adds its colour to the registers when it is new and a
/// register is free, and leaves them alone otherwise.
proof fn lemma_palette_step(cs: Seq<(u8, u8, u8)>, m: int)
    requires
        0 <= m < cs.len(),
    ensures
        sixel_palette(cs.take(m)).len() <= SIXEL_MAX_COLORS,
        sixel_palette(cs.take(m + 1)) == (if sixel_palette(cs.take(m)).contains(cs[m]) || sixel_palette(
            cs.take(m),
        ).len() >= SIXEL_MAX_COLORS {
            sixel_palette(cs.take(m))
        } else {
            sixel_palette(cs.take(m)).push(cs[m])
        }),
{
    lemma_distinct_step(cs, m);
    let d = distinct_colors(cs.take(m));
    let p = sixel_palette(cs.take(m));
    let c = cs[m];
    if p.contains(c) {
        let k = choose|k: int| 0 <= k < p.len() && p[k] == c;
        assert(d[k] == c);
        assert(d.contains(c));
    } else if p.len() >= SIXEL_MAX_COLORS {
        if d.contains(c) {
        } else {
            assert(d.push(c).subrange(0, SIXEL_MAX_COLORS as int) =~= d.subrange(0, SIXEL_MAX_COLORS as int));
            if d.len() == SIXEL_MAX_COLORS {
                assert(d.subrange(0, SIXEL_MAX_COLORS as int) =~= d);
            }
        }
    } else {
        assert(p == d);
    }
}

/// The registers after `k` pixels begin the registers after `m >= k`
/// pixels, and stay as they are once all are used.
proof fn lemma_palette_prefix(cs: Seq<(u8, u8, u8)>, k: int, m: int)
    requires
        0 <= k <= m <= cs.len(),
    ensures
        sixel_palette(cs.take(k)).len() <= sixel_palette(cs.take(m)).len() <= SIXEL_MAX_COLORS,
        sixel_palette(cs.take(m)).subrange(0, sixel_palette(cs.take(k)).len() as int) == sixel_palette(
            cs.take(k),
        ),
        sixel_palette(cs.take(k)).len() >= SIXEL_MAX_COLORS ==> sixel_palette(cs.take(m)) == sixel_palette(
            cs.take(k),
        ),
    decreases m - k,
{
    if k == m {
        if m < cs.len() {
            lemma_palette_step(cs, m);
        } else if m > 0 {
            lemma_palette_step(cs, m - 1);
        } else {
            assert(cs.take(0) =~= Seq::<(u8, u8, u8)>::empty());
            assert(distinct_colors(cs.take(0)) =~= Seq::<(u8, u8, u8)>::empty());
        }
        assert(sixel_palette(cs.take(m)).subrange(0, sixel_palette(cs.take(k)).len() as int) =~= sixel_palette(
            cs.take(k),
        ));
    } else {
        lemma_palette_prefix(cs, k + 1, m);
        lemma_palette_step(cs, k);
        let pk = sixel_palette(cs.take(k));
        let pk1 = sixel_palette(cs.take(k + 1));
        let pm = sixel_palette(cs.take(m));
        assert(pm.subrange(0, pk.len() as int) =~= pk1.subrange(0, pk.len() as int));
        assert(pk1.subrange(0, pk.len() as int) =~= pk);
    }
}

/// A colour first found at `k` has register `k`.
proof fn lemma_register_at(p: Seq<(u8, u8, u8)>, c: (u8, u8, u8), k: int)
    requires
        is_first_at(p, c, k),
    ensures
        color_register(p, c) == k,
{
    let j = choose|j: int| is_first_at(p, c, j);
    assert(is_first_at(p, c, j));
    if j < k {
        assert(p[j] != c);
    }
    if k < j {
        assert(p[k] != c);
    }
}

/// A colour missing from the palette has register 0.
proof fn lemma_register_missing(p: Seq<(u8, u8, u8)>, c: (u8, u8, u8))
    requires
        !p.contains(c),
    ensures
        color_register(p, c) == 0,
{
    if exists|k: int| is_first_at(p, c, k) {
        let k = choose|k: int| is_first_at(p, c, k);
        assert(p[k] == c);
    }
}

/// What a pixel's register was when it was met stays its register in the
/// final palette.
proof fn lemma_register_settles(cs: Seq<(u8, u8, u8)>, j: int, r: int)
    requires
        0 <= j < cs.len(),
        is_first_at(sixel_palette(cs.take(j + 1)), cs[j], r) || (sixel_palette(cs.take(j + 1)).len()
            >= SIXEL_MAX_COLORS && !sixel_palette(cs.take(j + 1)).contains(cs[j]) && r == 0),
    ensures
        color_register(sixel_palette(cs), cs[j]) == r,
{
    lemma_palette_prefix(cs, j + 1, cs.len() as int);
    assert(cs.take(cs.len() as int) =~= cs);
    let pj = sixel_palette(cs.take(j + 1));
    let pn = sixel_palette(cs);
    if is_first_at(pj, cs[j], r) {
        assert(pn.subrange(0, pj.len() as int) == pj);
        assert(pn[r] == pj[r]);
        assert forall|q: int| 0 <= q < r implies pn[q] != cs[j] by {
            assert(pn[q] == pj[q]);
        }
        lemma_register_at(pn, cs[j], r);
    } else {
        lemma_register_missing(pn, cs[j]);
    }
}

proof fn lemma_distinct_colors(cs: Seq<(u8, u8, u8)>)
    ensures
        forall|i: int, j: int|
            0 <= i < j < distinct_colors(cs).len() ==> distinct_colors(cs)[i] != distinct_colors(cs)[j],
        forall|k: int| 0 <= k < distinct_colors(cs).len() ==> cs.contains(#[trigger] distinct_colors(cs)[k]),
        forall|i: int| 0 <= i < cs.len() ==> distinct_colors(cs).contains(#[trigger] cs[i]),
    decreases cs.len(),
{
    if cs.len() > 0 {
        let pre = cs.drop_last();
        lemma_distinct_colors(pre);
        let d = distinct_colors(pre);
        assert forall|k: int| 0 <= k < distinct_colors(cs).len() implies cs.contains(
            #[trigger] distinct_colors(cs)[k],
        ) by {
            if k < d.len() {
                let m = choose|m: int| 0 <= m < pre.len() && pre[m] == d[k];
                assert(cs[m] == d[k]);
            } else {
                assert(cs[cs.len() - 1] == cs.last());
            }
        }
        assert forall|i: int| 0 <= i < cs.len() implies distinct_colors(cs).contains(#[trigger] cs[i]) by {
            if i < pre.len() {
                assert(pre[i] == cs[i]);
                let m = choose|m: int| 0 <= m < d.len() && d[m] == pre[i];
                assert(distinct_colors(cs)[m] == cs[i]);
            } else if d.contains(cs.last()) {
            } else {
                assert(distinct_colors(cs)[d.len() as int] == cs[i]);
            }
        }
    }
}

/// The colour registers hold distinct colours of the image, at most 256 of
/// them, and every pixel names the register of its colour, except when all
/// 256 registers are taken by other colours: then it names register 0. An
/// image with at most 256 distinct colours gets a register for each.
pub proof fn lemma_sixel_registers(cs: Seq<(u8, u8, u8)>)
    ensures
        sixel_palette(cs).len() <= SIXEL_MAX_COLORS,
        forall|i: int, j: int|
            0 <= i < j < sixel_palette(cs).len() ==> sixel_palette(cs)[i] != sixel_palette(cs)[j],
        forall|k: int| 0 <= k < sixel_palette(cs).len() ==> cs.contains(#[trigger] sixel_palette(cs)[k]),
        forall|j: int|
            0 <= j < cs.len() ==> (sixel_palette(cs).contains(#[trigger] cs[j]) && sixel_palette(cs)[color_register(
                sixel_palette(cs),
                cs[j],
            )] == cs[j]) || (sixel_palette(cs).len() == SIXEL_MAX_COLORS && color_register(sixel_palette(cs), cs[j])
                == 0),
        distinct_colors(cs).len() <= SIXEL_MAX_COLORS ==> forall|j: int|
            0 <= j < cs.len() ==> sixel_palette(cs).contains(#[trigger] cs[j]),
{
    lemma_distinct_colors(cs);
    let d = distinct_colors(cs);
    let p = sixel_palette(cs);
    assert forall|k: int| 0 <= k < p.len() implies p[k] == d[k] && cs.contains(#[trigger] p[k]) by {
        assert(d[k] == p[k]);
    }
    assert forall|j: int| 0 <= j < cs.len() implies (p.contains(#[trigger] cs[j]) && p[color_register(p, cs[j])]
        == cs[j]) || (p.len() == SIXEL_MAX_COLORS && color_register(p, cs[j]) == 0) by {
        if p.contains(cs[j]) {
            let k = choose|k: int| 0 <= k < p.len() && p[k] == cs[j];
            assert forall|q: int| 0 <= q < k implies p[q] != cs[j] by {
                assert(p[q] == d[q] && p[k] == d[k]);
            }
            lemma_register_at(p, cs[j], k);
        } else {
            lemma_register_missing(p, cs[j]);
            let m = choose|m: int| 0 <= m < d.len() && d[m] == cs[j];
            if d.len() <= SIXEL_MAX_COLORS {
                assert(p[m] == cs[j]);
            }
        }
    }
    if d.len() <= SIXEL_MAX_COLORS {
        assert forall|j: int| 0 <= j < cs.len() implies p.contains(#[trigger] cs[j]) by {
            let m = choose|m: int| 0 <= m < d.len() && d[m] == cs[j];
            assert(p[m] == cs[j]);
        }
    }
}

/// The first position of `c` among the registers, if any.
fn find_color(palette: &Vec<(u8, u8, u8)>, c: (u8, u8, u8)) -> (r: Option<usize>)
    ensures
        match r {
            Some(k) => is_first_at(palette@, c, k as int),
            None => !palette@.contains(c),
        },
{
    let mut q: usize = 0;
    while q < palette.len()
        invariant
            q <= palette@.len(),
            forall|j: int| 0 <= j < q ==> palette@[j] != c,
        decreases palette@.len() - q,
    {
        let e = palette[q];
        if e.0 == c.0 && e.1 == c.1 && e.2 == c.2 {
            return Some(q);
        }
        q += 1;
    }
    None
}

/// The registers of an image of `n` pixels of `bpp` bytes, and the register
/// of each pixel.
fn build_palette(data: &[u8], bpp: usize, n: usize) -> (res: (Vec<(u8, u8, u8)>, Vec<u16>))
    requires
        bpp >= 3,
        n * bpp <= data@.len(),
    ensures
        res.0@ == sixel_palette(pixel_colors(data@, bpp as nat, n as nat)),
        res.1@ == sixel_indices(pixel_colors(data@, bpp as nat, n as nat)),
{
    let ghost cs = pixel_colors(data@, bpp as nat, n as nat);
    let mut palette: Vec<(u8, u8, u8)> = Vec::new();
    let mut indices: Vec<u16> = Vec::new();
    assert(cs.take(0) =~= Seq::<(u8, u8, u8)>::empty());
    assert(distinct_colors(cs.take(0)) =~= Seq::<(u8, u8, u8)>::empty());
    let total = data.len();
    let mut i: usize = 0;
    while i < n
        invariant
            i <= n,
            n * bpp <= data@.len(),
            data@.len() == total,
            bpp >= 3,
            cs == pixel_colors(data@, bpp as nat, n as nat),
            palette@ == sixel_palette(cs.take(i as int)),
            indices@.len() == i,
            forall|j: int|
                #![trigger indices@[j]]
                0 <= j < i ==> (is_first_at(sixel_palette(cs.take(j + 1)), cs[j], indices@[j] as int) || (
                sixel_palette(cs.take(j + 1)).len() >= SIXEL_MAX_COLORS && !sixel_palette(
                    cs.take(j + 1),
                ).contains(cs[j]) && indices@[j] == 0)),
        decreases n - i,
    {
        assert(i * bpp + bpp <= n * bpp) by (nonlinear_arith)
            requires
                i + 1 <= n,
        ;
        let o = i * bpp;
        let c = (data[o], data[o + 1], data[o + 2]);
        assert(c == cs[i as int]);
        proof {
            lemma_palette_step(cs, i as int);
        }
        let ghost before = palette@;
        let idx: usize = match find_color(&palette, c) {
            Some(k) => k,
            None => {
                if palette.len() < SIXEL_MAX_COLORS {
                    palette.push(c);
                    palette.len() - 1
                } else {
                    0
                }
            },
        };
        proof {
            let p1 = sixel_palette(cs.take(i + 1));
            assert(p1 == palette@);
            if before.contains(c) {
            } else if before.len() < SIXEL_MAX_COLORS {
                assert(is_first_at(p1, c, idx as int));
            }
        }
        indices.push(idx as u16);
        i += 1;
    }
    proof {
        assert(cs.take(n as int) =~= cs);
        assert forall|j: int| 0 <= j < n implies indices@[j] == sixel_indices(cs)[j] by {
            lemma_register_settles(cs, j, indices@[j] as int);
        }
        assert(indices@ =~= sixel_indices(cs));
    }
    (palette, indices)
}

/// Appends the register definitions.
fn push_palette_defs(out: &mut Vec<u8>, palette: &Vec<(u8, u8, u8)>)
    ensures
        final(out)@ == old(out)@ + palette_defs(palette@, palette@.len()),
{
    let mut n: usize = 0;
    while n < palette.len()
        invariant
            n <= palette@.len(),
            out@ == old(out)@ + palette_defs(palette@, n as nat),
        decreases palette@.len() - n,
    {
        proof {
            reveal_strlit("#");
            reveal_strlit(";2;");
            reveal_strlit(";");
        }
        let ghost before = out@;
        let (r, g, b) = palette[n];
        push_ascii(out, "#");
        push_decimal(out, n as u64);
        push_ascii(out, ";2;");
        push_decimal(out, (r as u64 * 100) / 255);
        push_ascii(out, ";");
        push_decimal(out, (g as u64 * 100) / 255);
        push_ascii(out, ";");
        push_decimal(out, (b as u64 * 100) / 255);
        assert(out@ =~= before + register_def(palette@, n as int));
        n += 1;
    }
}

proof fn lemma_cell_in_grid(row: int, x: int, w: int, h: int)
    requires
        0 <= row < h,
        0 <= x < w,
    ensures
        0 <= row * w + x < w * h,
{
    assert(row * w + x < w * h) by (nonlinear_arith)
        requires
            0 <= row < h,
            0 <= x < w,
    ;
    assert(0 <= row * w) by (nonlinear_arith)
        requires
            0 <= row,
            0 <= w,
    ;
}

proof fn lemma_row_bit_bound(r: nat)
    requires
        r <= 5,
    ensures
        row_bit(r) <= 32,
{
    reveal_with_fuel(row_bit, 6);
}

/// The sixel byte of column `x` in the band at `y` for register `n`.
fn sixel_byte(indices: &Vec<u16>, w: usize, h: usize, y: usize, band: usize, x: usize, n: usize) -> (b: u8)
    requires
        indices@.len() == w * h,
        y + band <= h,
        band <= 6,
        x < w,
    ensures
        b as nat == 0x3f + band_bits(indices@, w as nat, y as nat, x as nat, n as nat, band as nat),
{
    let total = indices.len();
    let mut bits: u8 = 0;
    let mut bit: u8 = 1;
    let mut row: usize = 0;
    while row < band
        invariant
            row <= band <= 6,
            total == w * h,
            y + band <= h,
            x < w,
            indices@.len() == w * h,
            bit as nat == row_bit(row as nat),
            bits as nat == band_bits(indices@, w as nat, y as nat, x as nat, n as nat, row as nat),
            bits < bit,
            bit <= 64,
        decreases band - row,
    {
        proof {
            lemma_cell_in_grid((y + row) as int, x as int, w as int, h as int);
            lemma_row_bit_bound(row as nat);
        }
        if indices[(y + row) * w + x] as usize == n {
            bits = bits + bit;
        }
        bit = bit * 2;
        row += 1;
    }
    0x3f + bits
}

/// Appends the row of register `n` in the band at `y`.
fn push_sixel_row(out: &mut Vec<u8>, indices: &Vec<u16>, w: usize, h: usize, y: usize, band: usize, n: usize)
    requires
        indices@.len() == w * h,
        y + band <= h,
        band <= 6,
    ensures
        final(out)@ == old(out)@ + sixel_row(indices@, w as nat, y as nat, band as nat, n as nat),
{
    proof {
        reveal_strlit("#");
    }
    let ghost before = out@;
    push_ascii(out, "#");
    push_decimal(out, n as u64);
    let ghost start = out@;
    let mut x: usize = 0;
    while x < w
        invariant
            x <= w,
            indices@.len() == w * h,
            y + band <= h,
            band <= 6,
            out@ == start + Seq::new(
                x as nat,
                |k: int| (0x3f + band_bits(indices@, w as nat, y as nat, k as nat, n as nat, band as nat)) as u8,
            ),
        decreases w - x,
    {
        let b = sixel_byte(indices, w, h, y, band, x, n);
        out.push(b);
        x += 1;
    }
    out.push(0x24);
    assert(out@ =~= before + sixel_row(indices@, w as nat, y as nat, band as nat, n as nat));
}

/// Appends the bands from row 0 down, for `colors` registers.
fn push_bands(out: &mut Vec<u8>, indices: &Vec<u16>, w: usize, h: usize, colors: usize)
    requires
        indices@.len() == w * h,
    ensures
        final(out)@ == old(out)@ + sixel_bands(indices@, w as nat, h as nat, colors as nat, 0),
{
    let ghost target = old(out)@ + sixel_bands(indices@, w as nat, h as nat, colors as nat, 0);
    let mut y: usize = 0;
    while y < h
        invariant
            y <= h,
            indices@.len() == w * h,
            out@ + sixel_bands(indices@, w as nat, h as nat, colors as nat, y as nat) == target,
        decreases h - y,
    {
        let band = if h - y < 6 {
            h - y
        } else {
            6
        };
        let ghost band_start = out@;
        let mut n: usize = 0;
        while n < colors
            invariant
                n <= colors,
                y + band <= h,
                band <= 6,
                band == band_height(h as nat, y as nat),
                indices@.len() == w * h,
                out@ == band_start + band_rows(indices@, w as nat, y as nat, band as nat, n as nat),
            decreases colors - n,
        {
            push_sixel_row(out, indices, w, h, y, band, n);
            n += 1;
        }
        out.push(0x2d);
        proof {
            let rest = sixel_bands(indices@, w as nat, h as nat, colors as nat, (y + band) as nat);
            assert(band_start + sixel_bands(indices@, w as nat, h as nat, colors as nat, y as nat) =~= out@
                + rest);
        }
        y += band;
    }
    assert(out@ + Seq::<u8>::empty() =~= out@);
}

/// The Sixel image of a raw RGB or RGBA image: `DCS q`, a register for each
/// of the first 256 distinct colours (components scaled to 0..=100), then
/// the pixels in bands of six rows, one row of sixels per register, then
/// `ST`. Pixels whose colour got no register use register 0. Nothing for
/// PNG, for a zero width or height, or for data shorter than the image.
pub fn sixel_write(image: &GraphicsImage) -> (out: Vec<u8>)
    ensures
        out@ == sixel_sequence(image.format, image.width, image.height, image.data@),
{
    let bpp: usize = match image.format {
        ImageFormat::Rgb => 3,
        ImageFormat::Rgba => 4,
        ImageFormat::Png => {
            return Vec::new();
        },
    };
    let w = image.width as usize;
    let h = image.height as usize;
    let len = image.data.len();
    if w == 0 || h == 0 {
        return Vec::new();
    }
    let n = match w.checked_mul(h) {
        Some(n) => n,
        None => {
            assert(image.data@.len() < w * h * bpp) by (nonlinear_arith)
                requires
                    w * h > usize::MAX,
                    bpp >= 3,
                    image.data@.len() <= usize::MAX,
            ;
            return Vec::new();
        },
    };
    let need = match n.checked_mul(bpp) {
        Some(v) => v,
        None => {
            return Vec::new();
        },
    };
    if len < need {
        return Vec::new();
    }
    proof {
        reveal_strlit("\x1bPq");
        reveal_strlit("\x1b\\");
    }
    let (palette, indices) = build_palette(image.data, bpp, n);
    let mut out: Vec<u8> = Vec::new();
    push_ascii(&mut out, "\x1bPq");
    push_palette_defs(&mut out, &palette);
    push_bands(&mut out, &indices, w, h, palette.len());
    push_ascii(&mut out, "\x1b\\");
    out
}

// ---------------------------------------------------------------------------
// iTerm2
// ---------------------------------------------------------------------------

/// What `iterm_write` sends: `ESC ] 1337 ; File=<args> : <base64> BEL`, the
/// arguments being the base64 name (when given), the size, `inline=1`, and
/// the width and height (when given).
pub open spec fn iterm_sequence(file: Seq<u8>, name: Option<Seq<u8>>, width: Option<u32>, height: Option<u32>) -> Seq<u8> {
    let name_part = match name {
        Some(n) => ascii("name="@) + ascii(base64_standard(n)) + ascii(";"@),
        None => Seq::empty(),
    };
    let width_part = match width {
        Some(w) => ascii(";width="@) + dec(w as nat),
        None => Seq::empty(),
    };
    let height_part = match height {
        Some(h) => ascii(";height="@) + dec(h as nat),
        None => Seq::empty(),
    };
    ascii("\x1b]1337;File="@) + name_part + ascii("size="@) + dec(file.len()) + ascii(";inline=1"@) + width_part
        + height_part + ascii(":"@) + ascii(base64_standard(file)) + seq![0x07u8]
}

/// The iTerm2 inline-image escape for the file bytes `file_bytes`, with an
/// optional display name and optional width and height in cells.
#[verifier::spinoff_prover]
#[verifier::rlimit(40)]
pub fn iterm_write(file_bytes: &[u8], name: Option<&str>, width: Option<u32>, height: Option<u32>) -> (out: Vec<u8>)
    requires
        base64_len(file_bytes@.len()) <= usize::MAX,
        name matches Some(n) ==> base64_len(n.spec_bytes().len()) <= usize::MAX,
    ensures
        out@ == iterm_sequence(
            file_bytes@,
            match name {
                Some(n) => Some(n.spec_bytes()),
                None => None,
            },
            width,
            height,
        ),
{
    proof {
        reveal_strlit("\x1b]1337;File=");
        reveal_strlit("name=");
        reveal_strlit(";");
        reveal_strlit("size=");
        reveal_strlit(";inline=1");
        reveal_strlit(";width=");
        reveal_strlit(";height=");
        reveal_strlit(":");
    }
    let encoded = encode_base64(file_bytes);
    proof {
        lemma_base64_shape(file_bytes@);
    }
    let mut out: Vec<u8> = Vec::new();
    push_ascii(&mut out, "\x1b]1337;File=");
    let ghost after_head = out@;
    match name {
        Some(n) => {
            let name_bytes = n.as_bytes();
            let enc_name = encode_base64(name_bytes);
            proof {
                lemma_base64_shape(name_bytes@);
            }
            push_ascii(&mut out, "name=");
            push_ascii(&mut out, enc_name.as_str());
            push_ascii(&mut out, ";");
        },
        None => {},
    }
    let ghost after_name = out@;
    push_ascii(&mut out, "size=");
    push_decimal(&mut out, file_bytes.len() as u64);
    push_ascii(&mut out, ";inline=1");
    let ghost after_size = out@;
    match width {
        Some(w) => {
            push_ascii(&mut out, ";width=");
            push_decimal(&mut out, w as u64);
        },
        None => {},
    }
    let ghost after_width = out@;
    match height {
        Some(h) => {
            push_ascii(&mut out, ";height=");
            push_decimal(&mut out, h as u64);
        },
        None => {},
    }
    push_ascii(&mut out, ":");
    push_ascii(&mut out, encoded.as_str());
    out.push(0x07);
    proof {
        let nb = match name {
            Some(n) => Some(n.spec_bytes()),
            None => None,
        };
        assert(out@ =~= iterm_sequence(file_bytes@, nb, width, height));
    }
    out
}

// ---------------------------------------------------------------------------
// Query
// ---------------------------------------------------------------------------

/// The probe for graphics support: a Kitty query for image 1, then the
/// primary device attributes request (Sixel support shows as a `4`).
pub fn graphics_query() -> (out: Vec<u8>)
    ensures
        out@ == ascii("\x1b_Gi=1,a=q;\x1b\\"@) + ascii("\x1b[c"@),
{
    proof {
        reveal_strlit("\x1b_Gi=1,a=q;\x1b\\");
        reveal_strlit("\x1b[c");
    }
    let mut out: Vec<u8> = Vec::new();
    push_ascii(&mut out, "\x1b_Gi=1,a=q;\x1b\\");
    push_ascii(&mut out, "\x1b[c");
    out
}

} // verus!
