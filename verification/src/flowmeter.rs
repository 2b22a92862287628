//! Flow-meter reader settings, the base64 encoding of captured frames, and
//! the extraction of the meter digits from the vision model's reply.

use vstd::prelude::*;
use crate::text::{all_ascii, ascii_chars, ascii_string};

verus! {

/// Camera used to capture the meter face.
#[derive(Clone, Copy, Debug, PartialEq, Eq)]
pub enum CamBackend {
    /// Raspberry Pi camera via `libcamera-still`.
    Libcamera,
    /// USB camera via `fswebcam`.
    Fswebcam,
}

/// `str::to_lowercase`: the Unicode lowercase mapping of a string, which the
/// standard library defines character by character from the Unicode tables.
pub uninterp spec fn lowercase(s: Seq<char>) -> Seq<char>;

/// `str::to_lowercase`. The result is named by `lowercase`; the Unicode
/// tables it follows are not restated here.
#[verifier::external_body]
fn to_lowercase(s: &str) -> (r: String)
    ensures
        r@ == lowercase(s@),
{
    s.to_lowercase()
}

/// Default vision model.
pub const DEFAULT_MODEL: &'static str = "meta-llama/llama-4-scout-17b-16e-instruct";
/// Default video device for `fswebcam`.
pub const DEFAULT_DEVICE: &'static str = "/dev/video0";
/// Default meter brand tag.
pub const DEFAULT_BRAND: &'static str = "generic";
/// Default path of the captured frame.
pub const DEFAULT_TMP: &'static str = "/tmp/flowmeter_cap.jpg";
/// Reported when no API key is configured.
pub const MISSING_API_KEY: &'static str = "GROQ_API_KEY is not set — check your .env file";

/// The backend a `FLOWMETER_BACKEND` setting selects: the Pi camera when the
/// setting, lowercased, is "libcamera"; the USB camera otherwise and when unset.
pub open spec fn backend_for(setting: Option<String>) -> CamBackend {
    match setting {
        Some(s) => if lowercase(s@) == "libcamera"@ {
            CamBackend::Libcamera
        } else {
            CamBackend::Fswebcam
        },
        None => CamBackend::Fswebcam,
    }
}

impl CamBackend {
    /// The backend a `FLOWMETER_BACKEND` setting selects.
    pub fn from_setting(setting: Option<String>) -> (b: CamBackend)
        ensures
            b == backend_for(setting),
    {
        match setting {
            Some(s) => {
                let lower = to_lowercase(s.as_str());
                let target = String::from_str("libcamera");
                if lower == target {
                    CamBackend::Libcamera
                } else {
                    CamBackend::Fswebcam
                }
            },
            None => CamBackend::Fswebcam,
        }
    }
}

/// Settings of the webcam flow-meter reader.
pub struct FlowmeterReader {
    api_key: String,
    model: String,
    backend: CamBackend,
    device: String,
    brand: String,
    tmp_path: String,
}

/// `setting` where it is set, `default` otherwise.
pub open spec fn or_default(setting: Option<String>, default: Seq<char>) -> Seq<char> {
    match setting {
        Some(s) => s@,
        None => default,
    }
}

fn value_or(setting: Option<String>, default: &str) -> (v: String)
    ensures
        v@ == or_default(setting, default@),
{
    match setting {
        Some(s) => s,
        None => String::from_str(default),
    }
}

impl FlowmeterReader {
    pub closed spec fn spec_api_key(&self) -> Seq<char> {
        self.api_key@
    }

    pub closed spec fn spec_model(&self) -> Seq<char> {
        self.model@
    }

    pub closed spec fn spec_backend(&self) -> CamBackend {
        self.backend
    }

    pub closed spec fn spec_brand(&self) -> Seq<char> {
        self.brand@
    }

    pub closed spec fn spec_device(&self) -> Seq<char> {
        self.device@
    }

    pub closed spec fn spec_tmp_path(&self) -> Seq<char> {
        self.tmp_path@
    }

    /// Builds the reader from its settings (`GROQ_API_KEY`, `FLOWMETER_MODEL`,
    /// `FLOWMETER_BACKEND`, `FLOWMETER_DEVICE`, `FLOWMETER_BRAND`,
    /// `FLOWMETER_TMP`); only the API key is required.
    pub fn from_settings(
        api_key: Option<String>,
        model: Option<String>,
        backend: Option<String>,
        device: Option<String>,
        brand: Option<String>,
        tmp_path: Option<String>,
    ) -> (res: Result<Self, String>)
        ensures
            res is Ok <==> api_key is Some,
            res matches Err(e) ==> e@ == MISSING_API_KEY@,
            res matches Ok(r) ==> {
                &&& r.spec_api_key() == api_key->0@
                &&& r.spec_model() == or_default(model, DEFAULT_MODEL@)
                &&& r.spec_backend() == backend_for(backend)
                &&& r.spec_device() == or_default(device, DEFAULT_DEVICE@)
                &&& r.spec_brand() == or_default(brand, DEFAULT_BRAND@)
                &&& r.spec_tmp_path() == or_default(tmp_path, DEFAULT_TMP@)
            },
    {
        let api_key = match api_key {
            Some(k) => k,
            None => return Err(String::from_str(MISSING_API_KEY)),
        };
        Ok(FlowmeterReader {
            api_key,
            model: value_or(model, DEFAULT_MODEL),
            backend: CamBackend::from_setting(backend),
            device: value_or(device, DEFAULT_DEVICE),
            brand: value_or(brand, DEFAULT_BRAND),
            tmp_path: value_or(tmp_path, DEFAULT_TMP),
        })
    }

    /// API key for the vision service.
    pub fn api_key(&self) -> (k: &str)
        ensures
            k@ == self.spec_api_key(),
    {
        self.api_key.as_str()
    }

    /// Vision model name.
    pub fn model(&self) -> (m: &str)
        ensures
            m@ == self.spec_model(),
    {
        self.model.as_str()
    }

    /// Camera backend.
    pub fn backend(&self) -> (b: CamBackend)
        ensures
            b == self.spec_backend(),
    {
        self.backend
    }

    /// Meter brand tag, forwarded as-is in the published payload.
    pub fn brand(&self) -> (b: &str)
        ensures
            b@ == self.spec_brand(),
    {
        self.brand.as_str()
    }

    /// Video device for the USB camera.
    pub fn device(&self) -> (d: &str)
        ensures
            d@ == self.spec_device(),
    {
        self.device.as_str()
    }

    /// Where captured frames are written.
    pub fn tmp_path(&self) -> (p: &str)
        ensures
            p@ == self.spec_tmp_path(),
    {
        self.tmp_path.as_str()
    }
}

/// The base64 alphabet: A–Z, a–z, 0–9, '+', '/'.
pub open spec fn b64_symbol(v: int) -> u8 {
    if v < 26 {
        (65 + v) as u8
    } else if v < 52 {
        (97 + v - 26) as u8
    } else if v < 62 {
        (48 + v - 52) as u8
    } else if v == 62 {
        43u8
    } else {
        47u8
    }
}

/// The padding character '='.
pub open spec fn b64_pad() -> u8 {
    61u8
}

/// The four characters that encode a group of one to three bytes; missing
/// bytes count as zero and their characters are replaced by '='.
pub open spec fn b64_group(g: Seq<u8>) -> Seq<u8> {
    let b0 = g[0] as int;
    let b1 = if g.len() > 1 { g[1] as int } else { 0 };
    let b2 = if g.len() > 2 { g[2] as int } else { 0 };
    seq![
        b64_symbol(b0 / 4),
        b64_symbol((b0 % 4) * 16 + b1 / 16),
        if g.len() > 1 { b64_symbol((b1 % 16) * 4 + b2 / 64) } else { b64_pad() },
        if g.len() > 2 { b64_symbol(b2 % 64) } else { b64_pad() },
    ]
}

/// Standard base64 (RFC 4648, with padding) of `data`, as ASCII codes.
pub open spec fn base64(data: Seq<u8>) -> Seq<u8>
    decreases data.len(),
{
    if data.len() == 0 {
        Seq::empty()
    } else if data.len() <= 3 {
        b64_group(data)
    } else {
        b64_group(data.take(3)) + base64(data.skip(3))
    }
}

/// Whether `c` is one of the 64 symbols of the base64 alphabet.
pub open spec fn is_b64_symbol(c: u8) -> bool {
    (65 <= c <= 90) || (97 <= c <= 122) || (48 <= c <= 57) || c == 43 || c == 47
}

/// The six-bit value of a base64 symbol.
pub open spec fn b64_value(c: u8) -> int {
    if 65 <= c <= 90 {
        c - 65
    } else if 97 <= c <= 122 {
        c - 71
    } else if 48 <= c <= 57 {
        c + 4
    } else if c == 43 {
        62
    } else {
        63
    }
}

/// The one to three bytes a group of four base64 characters stands for.
pub open spec fn b64_decode_group(q: Seq<u8>) -> Seq<u8> {
    let v0 = b64_value(q[0]);
    let v1 = b64_value(q[1]);
    let v2 = b64_value(q[2]);
    let v3 = b64_value(q[3]);
    let b0 = (v0 * 4 + v1 / 16) as u8;
    let b1 = ((v1 % 16) * 16 + v2 / 4) as u8;
    let b2 = ((v2 % 4) * 64 + v3) as u8;
    if q[2] == b64_pad() {
        seq![b0]
    } else if q[3] == b64_pad() {
        seq![b0, b1]
    } else {
        seq![b0, b1, b2]
    }
}

/// Standard base64 decoding, four characters at a time.
pub open spec fn base64_decode(s: Seq<u8>) -> Seq<u8>
    decreases s.len(),
{
    if s.len() < 4 {
        Seq::empty()
    } else {
        b64_decode_group(s.take(4)) + base64_decode(s.skip(4))
    }
}

proof fn lemma_b64_symbol(v: int)
    requires
        0 <= v < 64,
    ensures
        is_b64_symbol(b64_symbol(v)),
        b64_value(b64_symbol(v)) == v,
{
}

proof fn lemma_b64_group_round_trip(g: Seq<u8>)
    requires
        1 <= g.len() <= 3,
    ensures
        b64_decode_group(b64_group(g)) == g,
{
    let b0 = g[0] as int;
    let b1 = if g.len() > 1 { g[1] as int } else { 0 };
    let b2 = if g.len() > 2 { g[2] as int } else { 0 };
    let v0 = b0 / 4;
    let v1 = (b0 % 4) * 16 + b1 / 16;
    let v2 = (b1 % 16) * 4 + b2 / 64;
    let v3 = b2 % 64;
    assert(0 <= v0 < 64 && 0 <= v1 < 64 && 0 <= v2 < 64 && 0 <= v3 < 64);
    lemma_b64_symbol(v0);
    lemma_b64_symbol(v1);
    lemma_b64_symbol(v2);
    lemma_b64_symbol(v3);
    assert(v0 * 4 + v1 / 16 == b0);
    assert((v1 % 16) * 16 + v2 / 4 == b1);
    assert((v2 % 4) * 64 + v3 == b2);
    let q = b64_group(g);
    if g.len() == 1 {
        assert(b64_decode_group(q) =~= g);
    } else if g.len() == 2 {
        assert(b64_decode_group(q) =~= g);
    } else {
        assert(b64_decode_group(q) =~= g);
    }
}

/// Decoding undoes base64 encoding.
pub proof fn lemma_base64_round_trip(data: Seq<u8>)
    ensures
        base64_decode(base64(data)) == data,
    decreases data.len(),
{
    if data.len() == 0 {
    } else if data.len() <= 3 {
        lemma_b64_group_round_trip(data);
        let q = base64(data);
        assert(q.take(4) =~= q);
        assert(q.skip(4).len() == 0);
        assert(base64_decode(q.skip(4)) =~= Seq::<u8>::empty());
        assert(base64_decode(q) =~= data);
    } else {
        let g = data.take(3);
        let rest = data.skip(3);
        lemma_b64_group_round_trip(g);
        lemma_base64_round_trip(rest);
        let q = base64(data);
        assert(q == b64_group(g) + base64(rest));
        assert(q.take(4) =~= b64_group(g));
        assert(q.skip(4) =~= base64(rest));
        assert(g + rest =~= data);
    }
}

/// Base64 output: four characters per started group of three bytes; the last
/// `(3 - n % 3) % 3` characters are '=' and all others are alphabet symbols.
pub proof fn lemma_base64_shape(data: Seq<u8>)
    ensures
        base64(data).len() == (data.len() + 2) / 3 * 4,
        forall|i: int|
            0 <= i < base64(data).len() - (3 - data.len() % 3) % 3 ==> is_b64_symbol(
                #[trigger] base64(data)[i],
            ),
        forall|i: int|
            base64(data).len() - (3 - data.len() % 3) % 3 <= i < base64(data).len() ==> #[trigger] base64(
                data,
            )[i] == b64_pad(),
    decreases data.len(),
{
    let n = data.len();
    if n == 0 {
    } else if n <= 3 {
        let b0 = data[0] as int;
        let b1 = if n > 1 { data[1] as int } else { 0 };
        let b2 = if n > 2 { data[2] as int } else { 0 };
        lemma_b64_symbol(b0 / 4);
        lemma_b64_symbol((b0 % 4) * 16 + b1 / 16);
        lemma_b64_symbol((b1 % 16) * 4 + b2 / 64);
        lemma_b64_symbol(b2 % 64);
    } else {
        let g = data.take(3);
        let rest = data.skip(3);
        lemma_base64_shape(rest);
        let b0 = g[0] as int;
        let b1 = g[1] as int;
        let b2 = g[2] as int;
        lemma_b64_symbol(b0 / 4);
        lemma_b64_symbol((b0 % 4) * 16 + b1 / 16);
        lemma_b64_symbol((b1 % 16) * 4 + b2 / 64);
        lemma_b64_symbol(b2 % 64);
        let q = base64(data);
        let r = base64(rest);
        assert(q == b64_group(g) + r);
        assert(rest.len() % 3 == n % 3);
        let p = (3 - n % 3) % 3;
        assert forall|i: int| 0 <= i < q.len() - p implies is_b64_symbol(#[trigger] q[i]) by {
            if i >= 4 {
                assert(q[i] == r[i - 4]);
            }
        }
        assert forall|i: int| q.len() - p <= i < q.len() implies #[trigger] q[i] == b64_pad() by {
            assert(q[i] == r[i - 4]);
        }
    }
}

/// Number of '=' at the end of the encoding of `n` bytes.
pub open spec fn b64_padding(n: nat) -> int {
    (3 - n % 3) % 3
}

/// Whether `c` is one of the 64 characters of the base64 alphabet.
pub open spec fn is_b64_char(c: char) -> bool {
    ('A' <= c <= 'Z') || ('a' <= c <= 'z') || ('0' <= c <= '9') || c == '+' || c == '/'
}

/// The encoding as text: alphabet characters, then exactly the padding
/// '='; and it decodes back to the input.
pub proof fn lemma_base64_text(data: Seq<u8>)
    ensures
        ascii_chars(base64(data)).len() == (data.len() + 2) / 3 * 4,
        forall|i: int|
            0 <= i < ascii_chars(base64(data)).len() - b64_padding(data.len()) ==> is_b64_char(
                #[trigger] ascii_chars(base64(data))[i],
            ),
        forall|i: int|
            ascii_chars(base64(data)).len() - b64_padding(data.len()) <= i < ascii_chars(
                base64(data),
            ).len() ==> #[trigger] ascii_chars(base64(data))[i] == '=',
        base64_decode(base64(data)) == data,
{
    lemma_base64_shape(data);
    lemma_base64_round_trip(data);
    let q = base64(data);
    let t = ascii_chars(q);
    assert forall|i: int| 0 <= i < t.len() - b64_padding(data.len()) implies is_b64_char(#[trigger] t[i]) by {
        assert(is_b64_symbol(q[i]));
        assert(t[i] == q[i] as char);
    }
    assert forall|i: int| t.len() - b64_padding(data.len()) <= i < t.len() implies #[trigger] t[i] == '=' by {
        assert(q[i] == b64_pad());
        assert(t[i] == q[i] as char);
    }
}

fn symbol(v: u32) -> (c: u8)
    requires
        v < 64,
    ensures
        c == b64_symbol(v as int),
        c < 128,
{
    if v < 26 {
        65 + v as u8
    } else if v < 52 {
        97 + (v - 26) as u8
    } else if v < 62 {
        48 + (v - 52) as u8
    } else if v == 62 {
        43
    } else {
        47
    }
}

proof fn lemma_base64_split(data: Seq<u8>, i: int)
    requires
        0 <= i <= data.len(),
        i % 3 == 0,
    ensures
        base64(data) == base64(data.take(i)) + base64(data.skip(i)),
    decreases i,
{
    if i > 0 {
        let d2 = data.skip(i - 3);
        lemma_base64_split(data, i - 3);
        assert(data.take(i).take(i - 3) =~= data.take(i - 3));
        assert(data.take(i).skip(i - 3) =~= data.take(i).subrange(i - 3, i));
        lemma_base64_split(data.take(i), i - 3);
        assert(base64(data.take(i).skip(i - 3)) == b64_group(data.take(i).skip(i - 3)));
        if d2.len() > 3 {
            assert(d2.take(3) =~= data.take(i).skip(i - 3));
            assert(d2.skip(3) =~= data.skip(i));
        } else {
            assert(d2 =~= data.take(i).skip(i - 3));
            assert(data.skip(i).len() == 0);
            assert(base64(data.skip(i)) =~= Seq::<u8>::empty());
        }
        assert(base64(data.skip(i - 3)) == b64_group(data.take(i).skip(i - 3)) + base64(
            data.skip(i),
        ));
        assert(base64(data.take(i)) == base64(data.take(i - 3)) + b64_group(
            data.take(i).skip(i - 3),
        ));
    } else {
        assert(data.skip(0) =~= data);
        assert(base64(data.take(0)) =~= Seq::<u8>::empty());
    }
}

/// Standard base64 encoding (with '=' padding) of `data`.
#[verifier::spinoff_prover]
#[verifier::rlimit(40)]
pub fn base64_encode(data: &[u8]) -> (s: String)
    requires
        data@.len() <= usize::MAX / 2,
    ensures
        s@ == ascii_chars(base64(data@)),
        s@.len() == (data@.len() + 2) / 3 * 4,
        forall|i: int|
            0 <= i < s@.len() - b64_padding(data@.len()) ==> is_b64_char(#[trigger] s@[i]),
        forall|i: int| s@.len() - b64_padding(data@.len()) <= i < s@.len() ==> #[trigger] s@[i] == '=',
        base64_decode(base64(data@)) == data@,
{
    let len = data.len();
    let mut out: Vec<u8> = Vec::new();
    let mut i: usize = 0;
    while i < len
        invariant
            len == data@.len(),
            len <= usize::MAX / 2,
            i <= len,
            i % 3 == 0 || i == len,
            out@ == base64(data@.take(i as int)),
            out@.len() == (i + 2) / 3 * 4,
            all_ascii(out@),
        decreases len - i,
    {
        let rem = len - i;
        let b0 = data[i] as u32;
        let b1 = if rem > 1 { data[i + 1] as u32 } else { 0 };
        let b2 = if rem > 2 { data[i + 2] as u32 } else { 0 };
        let n: u32 = (b0 << 16u32) | (b1 << 8u32) | b2;
        let ghost g = if rem >= 3 { data@.subrange(i as int, i + 3) } else { data@.subrange(i as int, len as int) };
        proof {
            assert(((n >> 18u32) & 63u32) == b0 / 4 && ((n >> 12u32) & 63u32) == (b0 % 4) * 16 + b1 / 16
                && ((n >> 6u32) & 63u32) == (b1 % 16) * 4 + b2 / 64 && (n & 63u32) == b2 % 64)
                by (bit_vector)
                requires
                    b0 < 256 && b1 < 256 && b2 < 256,
                    n == (b0 << 16u32) | (b1 << 8u32) | b2,
            ;
        }
        let c0 = symbol((n >> 18u32) & 63u32);
        let c1 = symbol((n >> 12u32) & 63u32);
        let c2 = if rem > 1 { symbol((n >> 6u32) & 63u32) } else { 61u8 };
        let c3 = if rem > 2 { symbol(n & 63u32) } else { 61u8 };
        let ghost before = out@;
        out.push(c0);
        out.push(c1);
        out.push(c2);
        out.push(c3);
        proof {
            assert(out@ =~= before + b64_group(g));
            let next = if rem >= 3 { i + 3 } else { len as int };
            let t = data@.take(next);
            assert(t.take(i as int) =~= data@.take(i as int));
            assert(t.skip(i as int) =~= g);
            lemma_base64_split(t, i as int);
            assert(base64(g) == b64_group(g));
            assert(all_ascii(out@)) by {
                assert forall|k: int| 0 <= k < out@.len() implies #[trigger] out@[k] < 128 by {
                    if k < before.len() {
                        assert(out@[k] == before[k]);
                    }
                }
            }
        }
        if rem >= 3 {
            i = i + 3;
        } else {
            i = len;
        }
    }
    proof {
        assert(data@.take(len as int) =~= data@);
    }
    proof {
        lemma_base64_text(data@);
    }
    ascii_string(out)
}

/// Whether a character is an ASCII decimal digit.
pub open spec fn is_digit(c: char) -> bool {
    '0' <= c <= '9'
}

/// The ASCII digits of `s`, in order.
pub open spec fn digits_of(s: Seq<char>) -> Seq<char>
    decreases s.len(),
{
    if s.len() == 0 {
        Seq::empty()
    } else if is_digit(s.last()) {
        digits_of(s.drop_last()).push(s.last())
    } else {
        digits_of(s.drop_last())
    }
}

/// The digits of a text are its ASCII digits, in order, and nothing else:
/// exactly the characters of the text that are '0' to '9'.
pub proof fn lemma_digits_of_is_filter(s: Seq<char>)
    ensures
        digits_of(s) == s.filter(|c: char| '0' <= c <= '9'),
    decreases s.len(),
{
    reveal(Seq::filter);
    if s.len() > 0 {
        lemma_digits_of_is_filter(s.drop_last());
    }
}

/// The digits of two texts joined are the digits of the first followed by
/// the digits of the second: no character affects what is kept elsewhere.
pub proof fn lemma_digits_of_concat(a: Seq<char>, b: Seq<char>)
    ensures
        digits_of(a + b) == digits_of(a) + digits_of(b),
{
    lemma_digits_of_is_filter(a);
    lemma_digits_of_is_filter(b);
    lemma_digits_of_is_filter(a + b);
    Seq::filter_distributes_over_add(a, b, |c: char| '0' <= c <= '9');
}

/// A single character is kept exactly when it is an ASCII digit.
pub proof fn lemma_digits_of_char(c: char)
    ensures
        digits_of(seq![c]) == (if '0' <= c <= '9' {
            seq![c]
        } else {
            Seq::<char>::empty()
        }),
{
    assert(seq![c].drop_last() =~= Seq::<char>::empty());
    assert(seq![c].last() == c);
    assert(digits_of(Seq::<char>::empty()) == Seq::<char>::empty());
    assert(Seq::<char>::empty().push(c) =~= seq![c]);
}

/// The meter digits in the vision model's reply: every ASCII digit, in order,
/// with everything else dropped. `None` when the reply holds no digit.
pub fn reading_digits(raw: &str) -> (r: Option<String>)
    ensures
        r is None <==> digits_of(raw@).len() == 0,
        r matches Some(d) ==> d@ == digits_of(raw@),
        r is None <==> raw@.filter(|c: char| '0' <= c <= '9').len() == 0,
        r matches Some(d) ==> d@ == raw@.filter(|c: char| '0' <= c <= '9'),
{
    proof {
        lemma_digits_of_is_filter(raw@);
    }
    let n = raw.unicode_len();
    let mut bytes: Vec<u8> = Vec::new();
    let mut i: usize = 0;
    while i < n
        invariant
            n == raw@.len(),
            i <= n,
            all_ascii(bytes@),
            ascii_chars(bytes@) == digits_of(raw@.take(i as int)),
        decreases n - i,
    {
        let c = raw.get_char(i);
        let ghost before = bytes@;
        if '0' <= c && c <= '9' {
            let b: u8 = (c as u32) as u8;
            bytes.push(b);
            proof {
                assert(b as char == c);
            }
        }
        proof {
            assert(raw@.take(i + 1).drop_last() =~= raw@.take(i as int));
            assert(raw@.take(i + 1).last() == c);
            assert(ascii_chars(bytes@) =~= digits_of(raw@.take(i + 1)));
            assert(all_ascii(bytes@)) by {
                assert forall|k: int| 0 <= k < bytes@.len() implies #[trigger] bytes@[k] < 128 by {
                    if k < before.len() {
                        assert(bytes@[k] == before[k]);
                    }
                }
            }
        }
        i = i + 1;
    }
    proof {
        assert(raw@.take(n as int) =~= raw@);
    }
    if bytes.len() == 0 {
        return None;
    }
    Some(ascii_string(bytes))
}

} // verus!
