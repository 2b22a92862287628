//! Modbus RTU framing: CRC-16/Modbus, request frames, and response decoding.

use vstd::prelude::*;
use crate::text::{ascii_chars, decimal, decimal_string};

verus! {

/// One step of the reflected CRC-16/Modbus shift register (polynomial 0xA001).
pub open spec fn crc_shift(crc: u16) -> u16 {
    if crc & 1 != 0 {
        (crc >> 1u16) ^ 0xA001u16
    } else {
        crc >> 1u16
    }
}

/// `n` shift-register steps.
pub open spec fn crc_shift_n(crc: u16, n: nat) -> u16
    decreases n,
{
    if n == 0 {
        crc
    } else {
        crc_shift(crc_shift_n(crc, (n - 1) as nat))
    }
}

/// The register after feeding one byte.
pub open spec fn crc_feed(crc: u16, byte: u8) -> u16 {
    crc_shift_n(crc ^ (byte as u16), 8)
}

/// CRC-16/Modbus of a byte sequence (initial value 0xFFFF, no final xor).
pub open spec fn modbus_crc(data: Seq<u8>) -> u16
    decreases data.len(),
{
    if data.len() == 0 {
        0xFFFFu16
    } else {
        crc_feed(modbus_crc(data.drop_last()), data.last())
    }
}

/// CRC-16/Modbus of `data`.
pub fn crc16(data: &[u8]) -> (crc: u16)
    ensures
        crc == modbus_crc(data@),
{
    let mut crc: u16 = 0xFFFF;
    let n = data.len();
    let mut i: usize = 0;
    while i < n
        invariant
            n == data@.len(),
            i <= n,
            crc == modbus_crc(data@.take(i as int)),
        decreases n - i,
    {
        let byte = data[i];
        let start: u16 = crc ^ (byte as u16);
        crc = start;
        let mut k: usize = 0;
        while k < 8
            invariant
                k <= 8,
                crc == crc_shift_n(start, k as nat),
            decreases 8 - k,
        {
            crc = if crc & 1 != 0 {
                (crc >> 1u16) ^ 0xA001u16
            } else {
                crc >> 1u16
            };
            k = k + 1;
        }
        proof {
            assert(data@.take(i + 1).drop_last() =~= data@.take(i as int));
            assert(data@.take(i + 1).last() == byte);
        }
        i = i + 1;
    }
    proof {
        assert(data@.take(n as int) =~= data@);
    }
    crc
}

/// Function code "Read Holding Registers".
pub const READ_HOLDING_REGISTERS: u8 = 0x03;

/// Most significant byte of a 16-bit value.
pub open spec fn high_byte(v: u16) -> u8 {
    (v / 256) as u8
}

/// Least significant byte of a 16-bit value.
pub open spec fn low_byte(v: u16) -> u8 {
    (v % 256) as u8
}

/// The six header bytes of a request: slave, function, start register and
/// register count, both big-endian.
pub open spec fn request_header(slave: u8, func_code: u8, start_reg: u16, num_regs: u16) -> Seq<u8> {
    seq![slave, func_code, high_byte(start_reg), low_byte(start_reg), high_byte(num_regs), low_byte(num_regs)]
}

/// `payload` followed by its CRC, low byte first.
pub open spec fn with_crc(payload: Seq<u8>) -> Seq<u8> {
    payload + seq![low_byte(modbus_crc(payload)), high_byte(modbus_crc(payload))]
}

/// A frame whose last two bytes are the CRC (low byte first) of the bytes before them.
pub open spec fn crc_valid(frame: Seq<u8>) -> bool {
    &&& frame.len() >= 2
    &&& modbus_crc(frame.take(frame.len() - 2)) as int
        == frame[frame.len() - 2] as int + 256 * frame[frame.len() - 1] as int
}

/// The `i`-th register of a response: big-endian 16-bit word after the
/// three header bytes (address, function, byte count).
pub open spec fn register_at(data: Seq<u8>, i: int) -> u16 {
    (data[3 + 2 * i] as int * 256 + data[4 + 2 * i] as int) as u16
}

/// The first `n` registers of a response.
pub open spec fn registers_of(data: Seq<u8>, n: nat) -> Seq<u16> {
    Seq::new(n, |i: int| register_at(data, i))
}

/// Length of a Read Holding Registers response carrying `n` registers:
/// address, function, byte count, 2 bytes per register, 2 CRC bytes.
pub open spec fn response_len_of(n: nat) -> nat {
    3 + n * 2 + 2
}

/// Builds the 8-byte request frame: header followed by its CRC, low byte first.
pub fn build_request(slave: u8, func_code: u8, start_reg: u16, num_regs: u16) -> (frame: [u8; 8])
    ensures
        frame@ == with_crc(request_header(slave, func_code, start_reg, num_regs)),
{
    let s_hi: u8 = (start_reg >> 8u16) as u8;
    let s_lo: u8 = (start_reg & 0xFFu16) as u8;
    let n_hi: u8 = (num_regs >> 8u16) as u8;
    let n_lo: u8 = (num_regs & 0xFFu16) as u8;
    proof {
        assert(s_hi == high_byte(start_reg) && s_lo == low_byte(start_reg)) by (bit_vector)
            requires
                s_hi == (start_reg >> 8u16) as u8,
                s_lo == (start_reg & 0xFFu16) as u8,
        ;
        assert(n_hi == high_byte(num_regs) && n_lo == low_byte(num_regs)) by (bit_vector)
            requires
                n_hi == (num_regs >> 8u16) as u8,
                n_lo == (num_regs & 0xFFu16) as u8,
        ;
    }
    let header: [u8; 6] = [slave, func_code, s_hi, s_lo, n_hi, n_lo];
    assert(header@ =~= request_header(slave, func_code, start_reg, num_regs));
    let crc = crc16(header.as_slice());
    let c_lo: u8 = (crc & 0xFFu16) as u8;
    let c_hi: u8 = (crc >> 8u16) as u8;
    proof {
        assert(c_hi == high_byte(crc) && c_lo == low_byte(crc)) by (bit_vector)
            requires
                c_hi == (crc >> 8u16) as u8,
                c_lo == (crc & 0xFFu16) as u8,
        ;
    }
    let frame: [u8; 8] = [slave, func_code, s_hi, s_lo, n_hi, n_lo, c_lo, c_hi];
    assert(frame@ =~= with_crc(request_header(slave, func_code, start_reg, num_regs)));
    frame
}

/// The request frame for reading `num_regs` holding registers from `start_reg`.
pub fn read_holding_request(slave: u8, start_reg: u16, num_regs: u16) -> (frame: [u8; 8])
    ensures
        frame@ == with_crc(request_header(slave, READ_HOLDING_REGISTERS, start_reg, num_regs)),
{
    build_request(slave, READ_HOLDING_REGISTERS, start_reg, num_regs)
}

/// Whether the last two bytes of `data` are the CRC (low byte first) of the rest.
pub fn verify_crc(data: &[u8]) -> (ok: bool)
    ensures
        ok == crc_valid(data@),
{
    let len = data.len();
    if len < 2 {
        return false;
    }
    let calc = crc16(vstd::slice::slice_subrange(data, 0, len - 2));
    let lo: u8 = data[len - 2];
    let hi: u8 = data[len - 1];
    let recv: u16 = (lo as u16) | ((hi as u16) << 8u16);
    proof {
        assert(recv as int == lo as int + 256 * hi as int) by (bit_vector)
            requires
                recv == (lo as u16) | ((hi as u16) << 8u16),
        ;
        assert(data@.subrange(0, len - 2) =~= data@.take(len - 2));
    }
    calc == recv
}

/// The first `num_regs` big-endian registers after the three header bytes.
pub fn parse_registers(data: &[u8], num_regs: usize) -> (regs: Vec<u16>)
    requires
        num_regs == 0 || data@.len() >= 3 + 2 * num_regs,
    ensures
        regs@ == registers_of(data@, num_regs as nat),
{
    let mut regs: Vec<u16> = Vec::new();
    let len = data.len();
    let mut i: usize = 0;
    while i < num_regs
        invariant
            len == data@.len(),
            num_regs == 0 || data@.len() >= 3 + 2 * num_regs,
            i <= num_regs,
            regs@ == registers_of(data@, i as nat),
        decreases num_regs - i,
    {
        let off = 3 + i * 2;
        let hi: u8 = data[off];
        let lo: u8 = data[off + 1];
        let word: u16 = ((hi as u16) << 8u16) | (lo as u16);
        proof {
            assert(word as int == hi as int * 256 + lo as int) by (bit_vector)
                requires
                    word == ((hi as u16) << 8u16) | (lo as u16),
            ;
        }
        regs.push(word);
        i = i + 1;
        assert(regs@ =~= registers_of(data@, i as nat));
    }
    regs
}

/// Length of the response to a request for `num_regs` registers.
pub fn response_len(num_regs: usize) -> (len: usize)
    requires
        response_len_of(num_regs as nat) <= usize::MAX,
    ensures
        len == response_len_of(num_regs as nat),
{
    3 + num_regs * 2 + 2
}

/// Why a register poll failed. The strings are the transport's own error texts.
pub enum PollError {
    /// Flushing the input buffer failed.
    BufferClear(String),
    /// Writing the request failed.
    Write(String),
    /// Reading from the port failed.
    Read(String),
    /// The deadline passed with `received` of `expected` bytes in.
    Timeout { received: usize, expected: usize },
    /// The response arrived complete but its CRC does not match.
    CrcMismatch,
}

/// Text of a timeout report.
pub open spec fn timeout_text(received: nat, expected: nat) -> Seq<char> {
    "timeout — got "@ + ascii_chars(decimal(received)) + "/"@ + ascii_chars(decimal(expected))
        + " bytes"@
}

impl PollError {
    /// Failures that mean the port handle is dead and must be reopened.
    pub open spec fn spec_needs_reconnect(&self) -> bool {
        match self {
            PollError::BufferClear(_) | PollError::Write(_) | PollError::Read(_) => true,
            _ => false,
        }
    }

    /// Whether the port handle must be dropped and reopened after this failure.
    pub fn needs_reconnect(&self) -> (r: bool)
        ensures
            r == self.spec_needs_reconnect(),
    {
        match self {
            PollError::BufferClear(_) | PollError::Write(_) | PollError::Read(_) => true,
            _ => false,
        }
    }

    /// The human-readable report.
    pub open spec fn spec_message(&self) -> Seq<char> {
        match self {
            PollError::BufferClear(e) => "Buffer clear error: "@ + e@,
            PollError::Write(e) => "Write error: "@ + e@,
            PollError::Read(e) => "Read error: "@ + e@,
            PollError::Timeout { received, expected } => timeout_text(*received as nat, *expected as nat),
            PollError::CrcMismatch => "CRC mismatch"@,
        }
    }

    /// The human-readable report, as the collector logs it.
    pub fn message(&self) -> (m: String)
        ensures
            m@ == self.spec_message(),
    {
        match self {
            PollError::BufferClear(e) => String::from_str("Buffer clear error: ").concat(e.as_str()),
            PollError::Write(e) => String::from_str("Write error: ").concat(e.as_str()),
            PollError::Read(e) => String::from_str("Read error: ").concat(e.as_str()),
            PollError::Timeout { received, expected } => {
                let got = decimal_string(*received as u64);
                let want = decimal_string(*expected as u64);
                let m = String::from_str("timeout — got ").concat(got.as_str()).concat(
                    "/",
                ).concat(want.as_str()).concat(" bytes");
                m
            },
            PollError::CrcMismatch => String::from_str("CRC mismatch"),
        }
    }
}

/// Checks the CRC of a complete response and extracts its registers.
/// This is the part of a register poll that follows the serial exchange.
pub fn decode_response(response: &[u8], num_regs: usize) -> (res: Result<Vec<u16>, PollError>)
    requires
        response@.len() == response_len_of(num_regs as nat),
    ensures
        res is Ok <==> crc_valid(response@),
        res matches Ok(regs) ==> regs@ == registers_of(response@, num_regs as nat),
        res matches Err(e) ==> e is CrcMismatch,
{
    if !verify_crc(response) {
        return Err(PollError::CrcMismatch);
    }
    Ok(parse_registers(response, num_regs))
}

/// Progress of reading one response of known length from the port.
pub struct ResponseProgress {
    received: usize,
    expected: usize,
}

/// What one read from the port produced.
pub enum ReadOutcome {
    /// `n` bytes arrived.
    Bytes(usize),
    /// A read timed out at the port level; keep waiting.
    TimedOut,
    /// The port reported an error.
    Failed(String),
}

impl ResponseProgress {
    pub closed spec fn spec_received(&self) -> nat {
        self.received as nat
    }

    pub closed spec fn spec_expected(&self) -> nat {
        self.expected as nat
    }

    pub closed spec fn wf(&self) -> bool {
        self.received <= self.expected
    }

    /// Nothing received yet of `expected` bytes.
    pub fn new(expected: usize) -> (p: Self)
        ensures
            p.wf(),
            p.spec_received() == 0,
            p.spec_expected() == expected,
    {
        ResponseProgress { received: 0, expected }
    }

    /// Bytes received so far; the next read goes to this offset.
    pub fn received(&self) -> (r: usize)
        ensures
            r == self.spec_received(),
    {
        self.received
    }

    /// Whether the whole response is in.
    pub fn is_complete(&self) -> (c: bool)
        ensures
            c == (self.spec_received() >= self.spec_expected()),
    {
        self.received >= self.expected
    }

    /// Records one read. Returns the error that ends the exchange, if any.
    pub fn record(&mut self, outcome: ReadOutcome) -> (err: Option<PollError>)
        requires
            old(self).wf(),
            outcome matches ReadOutcome::Bytes(n) ==> old(self).spec_received() + n
                <= old(self).spec_expected(),
        ensures
            final(self).wf(),
            final(self).spec_expected() == old(self).spec_expected(),
            match outcome {
                ReadOutcome::Bytes(n) => err is None && final(self).spec_received()
                    == old(self).spec_received() + n,
                ReadOutcome::TimedOut => err is None && final(self).spec_received()
                    == old(self).spec_received(),
                ReadOutcome::Failed(e) => err == Some(PollError::Read(e))
                    && final(self).spec_received() == old(self).spec_received(),
            },
    {
        match outcome {
            ReadOutcome::Bytes(n) => {
                self.received = self.received + n;
                None
            },
            ReadOutcome::TimedOut => None,
            ReadOutcome::Failed(e) => Some(PollError::Read(e)),
        }
    }

    /// The error reported when the deadline passes before the response is in.
    pub fn timeout(&self) -> (e: PollError)
        ensures
            e == (PollError::Timeout {
                received: self.spec_received() as usize,
                expected: self.spec_expected() as usize,
            }),
    {
        PollError::Timeout { received: self.received, expected: self.expected }
    }
}

/// The CRC register after feeding `data` into a register that starts at `init`.
pub open spec fn crc_from(init: u16, data: Seq<u8>) -> u16
    decreases data.len(),
{
    if data.len() == 0 {
        init
    } else {
        crc_feed(crc_from(init, data.drop_last()), data.last())
    }
}

/// Byte-wise exclusive or of two sequences of the same length.
pub open spec fn xor_bytes(a: Seq<u8>, b: Seq<u8>) -> Seq<u8> {
    Seq::new(a.len(), |i: int| a[i] ^ b[i])
}

/// `n` zero bytes.
pub open spec fn zero_bytes(n: nat) -> Seq<u8> {
    Seq::new(n, |i: int| 0u8)
}

/// `d` with bit `k` of byte `i` inverted.
pub open spec fn flip_bit(d: Seq<u8>, i: int, k: u8) -> Seq<u8> {
    d.update(i, d[i] ^ (1u8 << k))
}

proof fn lemma_modbus_crc_from(data: Seq<u8>)
    ensures
        modbus_crc(data) == crc_from(0xFFFFu16, data),
    decreases data.len(),
{
    if data.len() > 0 {
        lemma_modbus_crc_from(data.drop_last());
    }
}

proof fn lemma_shift_xor(x: u16, y: u16)
    ensures
        crc_shift(x ^ y) == crc_shift(x) ^ crc_shift(y),
{
    assert(crc_shift(x ^ y) == crc_shift(x) ^ crc_shift(y)) by (bit_vector);
}

proof fn lemma_shift_n_xor(x: u16, y: u16, n: nat)
    ensures
        crc_shift_n(x ^ y, n) == crc_shift_n(x, n) ^ crc_shift_n(y, n),
    decreases n,
{
    if n > 0 {
        lemma_shift_n_xor(x, y, (n - 1) as nat);
        lemma_shift_xor(crc_shift_n(x, (n - 1) as nat), crc_shift_n(y, (n - 1) as nat));
    }
}

proof fn lemma_feed_xor(c1: u16, c2: u16, b1: u8, b2: u8)
    ensures
        crc_feed(c1 ^ c2, b1 ^ b2) == crc_feed(c1, b1) ^ crc_feed(c2, b2),
{
    assert(((c1 ^ c2) ^ ((b1 ^ b2) as u16)) == (c1 ^ (b1 as u16)) ^ (c2 ^ (b2 as u16))) by (bit_vector);
    lemma_shift_n_xor(c1 ^ (b1 as u16), c2 ^ (b2 as u16), 8);
}

/// The CRC register is linear over GF(2): feeding the exclusive or of two
/// inputs of the same length into the exclusive or of two start values
/// gives the exclusive or of the two results.
pub proof fn lemma_crc_from_xor(c1: u16, c2: u16, a: Seq<u8>, b: Seq<u8>)
    requires
        a.len() == b.len(),
    ensures
        crc_from(c1 ^ c2, xor_bytes(a, b)) == crc_from(c1, a) ^ crc_from(c2, b),
    decreases a.len(),
{
    if a.len() > 0 {
        lemma_crc_from_xor(c1, c2, a.drop_last(), b.drop_last());
        assert(xor_bytes(a, b).drop_last() =~= xor_bytes(a.drop_last(), b.drop_last()));
        lemma_feed_xor(crc_from(c1, a.drop_last()), crc_from(c2, b.drop_last()), a.last(), b.last());
    }
}

/// The Modbus CRC is affine over GF(2) for a fixed length: the CRC of the
/// exclusive or of two inputs is the exclusive or of their CRCs and the CRC
/// of as many zero bytes.
pub proof fn lemma_crc_affine(a: Seq<u8>, b: Seq<u8>)
    requires
        a.len() == b.len(),
    ensures
        modbus_crc(xor_bytes(a, b)) == modbus_crc(a) ^ modbus_crc(b) ^ modbus_crc(zero_bytes(a.len())),
{
    let x = xor_bytes(a, b);
    let z = zero_bytes(a.len());
    lemma_modbus_crc_from(a);
    lemma_modbus_crc_from(b);
    lemma_modbus_crc_from(x);
    lemma_modbus_crc_from(z);
    assert forall|i: int| 0 <= i < x.len() implies #[trigger] xor_bytes(z, x)[i] == x[i] by {
        let v = x[i];
        assert((0u8 ^ v) == v) by (bit_vector);
    }
    assert(xor_bytes(z, x) =~= x);
    assert((0xFFFFu16 ^ 0u16) == 0xFFFFu16) by (bit_vector);
    assert((0xFFFFu16 ^ 0xFFFFu16) == 0u16) by (bit_vector);
    lemma_crc_from_xor(0xFFFFu16, 0u16, z, x);
    lemma_crc_from_xor(0xFFFFu16, 0xFFFFu16, a, b);
    let ca = crc_from(0xFFFFu16, a);
    let cb = crc_from(0xFFFFu16, b);
    let cz = crc_from(0xFFFFu16, z);
    assert((cz ^ (ca ^ cb)) == ((ca ^ cb) ^ cz)) by (bit_vector);
}

proof fn lemma_shift_n_low_zero(x: u16, k: nat)
    requires
        x & 0xFFu16 == 0,
        k <= 8,
    ensures
        crc_shift_n(x, k) == x >> (k as u16),
    decreases k,
{
    if k > 0 {
        lemma_shift_n_low_zero(x, (k - 1) as nat);
        let j: u16 = (k - 1) as u16;
        assert(crc_shift(x >> j) == x >> ((j + 1) as u16)) by (bit_vector)
            requires
                x & 0xFFu16 == 0,
                j < 8,
        ;
    } else {
        assert((x >> 0u16) == x) by (bit_vector);
    }
}

proof fn lemma_shift_n_zero(n: nat)
    ensures
        crc_shift_n(0u16, n) == 0u16,
    decreases n,
{
    if n > 0 {
        lemma_shift_n_zero((n - 1) as nat);
        assert(crc_shift(0u16) == 0u16) by (bit_vector);
    }
}

proof fn lemma_shift_n_nonzero(x: u16, n: nat)
    requires
        x != 0,
    ensures
        crc_shift_n(x, n) != 0,
    decreases n,
{
    if n > 0 {
        lemma_shift_n_nonzero(x, (n - 1) as nat);
        let y = crc_shift_n(x, (n - 1) as nat);
        assert(y != 0 ==> crc_shift(y) != 0) by (bit_vector);
    }
}

/// Feeding a register its own CRC, low byte first, clears it.
proof fn lemma_feed_own_crc(c: u16)
    ensures
        crc_feed(crc_feed(c, low_byte(c)), high_byte(c)) == 0,
{
    let x: u16 = c ^ (low_byte(c) as u16);
    assert(x & 0xFFu16 == 0 && (x >> 8u16) == high_byte(c) as u16) by (bit_vector)
        requires
            x == c ^ (((c % 256) as u8) as u16),
    ;
    lemma_shift_n_low_zero(x, 8);
    let h: u16 = crc_feed(c, low_byte(c));
    assert((h ^ (high_byte(c) as u16)) == 0u16) by (bit_vector)
        requires
            h == ((c / 256) as u8) as u16,
    ;
    lemma_shift_n_zero(8);
}

/// Appending its CRC to a payload, low byte first, leaves a zero CRC residue.
pub proof fn lemma_crc_residue_zero(payload: Seq<u8>)
    ensures
        modbus_crc(with_crc(payload)) == 0,
{
    let f = with_crc(payload);
    let c = modbus_crc(payload);
    assert(f.drop_last().drop_last() =~= payload);
    assert(f.drop_last().last() == low_byte(c));
    assert(f.last() == high_byte(c));
    assert(modbus_crc(f.drop_last()) == crc_feed(c, low_byte(c)));
    assert(modbus_crc(f) == crc_feed(modbus_crc(f.drop_last()), high_byte(c)));
    lemma_feed_own_crc(c);
}

proof fn lemma_single_byte_crc(e: Seq<u8>, i: int, mask: u8, j: int)
    requires
        0 <= i < e.len(),
        mask != 0,
        e[i] == mask,
        forall|t: int| 0 <= t < e.len() && t != i ==> #[trigger] e[t] == 0,
        0 <= j <= e.len(),
    ensures
        j <= i ==> crc_from(0u16, e.take(j)) == 0,
        j > i ==> crc_from(0u16, e.take(j)) != 0,
    decreases j,
{
    if j > 0 {
        lemma_single_byte_crc(e, i, mask, j - 1);
        assert(e.take(j).drop_last() =~= e.take(j - 1));
        assert(e.take(j).last() == e[j - 1]);
        let prev = crc_from(0u16, e.take(j - 1));
        let b = e[j - 1];
        let x: u16 = prev ^ (b as u16);
        if j - 1 < i {
            assert(x == 0u16) by (bit_vector)
                requires
                    prev == 0u16,
                    b == 0u8,
                    x == prev ^ (b as u16),
            ;
            lemma_shift_n_zero(8);
        } else if j - 1 == i {
            assert(x != 0u16) by (bit_vector)
                requires
                    prev == 0u16,
                    b != 0u8,
                    x == prev ^ (b as u16),
            ;
            lemma_shift_n_nonzero(x, 8);
        } else {
            assert(x != 0u16) by (bit_vector)
                requires
                    prev != 0u16,
                    b == 0u8,
                    x == prev ^ (b as u16),
            ;
            lemma_shift_n_nonzero(x, 8);
        }
    }
}

/// The CRC check detects every single-bit error: inverting any one bit of a
/// frame that passes the check, in the payload or in the CRC bytes, makes it
/// fail.
pub proof fn lemma_single_bit_error_detected(d: Seq<u8>, i: int, k: u8)
    requires
        crc_valid(d),
        0 <= i < d.len(),
        k < 8,
    ensures
        !crc_valid(flip_bit(d, i, k)),
{
    let n = d.len() as int;
    let e = flip_bit(d, i, k);
    let mask: u8 = 1u8 << k;
    let di = d[i];
    assert(mask != 0 && (di ^ mask) != di) by (bit_vector)
        requires
            k < 8,
            mask == 1u8 << k,
    ;
    if i >= n - 2 {
        assert(e.take(n - 2) =~= d.take(n - 2));
    } else {
        let pd = d.take(n - 2);
        let pe = e.take(n - 2);
        let err = Seq::new((n - 2) as nat, |t: int| if t == i { mask } else { 0u8 });
        assert forall|t: int| 0 <= t < pe.len() implies #[trigger] xor_bytes(pd, err)[t] == pe[t] by {
            let v = pd[t];
            if t == i {
            } else {
                assert((v ^ 0u8) == v) by (bit_vector);
            }
        }
        assert(xor_bytes(pd, err) =~= pe);
        assert((0xFFFFu16 ^ 0u16) == 0xFFFFu16) by (bit_vector);
        lemma_crc_from_xor(0xFFFFu16, 0u16, pd, err);
        lemma_single_byte_crc(err, i, mask, n - 2);
        assert(err.take(n - 2) =~= err);
        lemma_modbus_crc_from(pd);
        lemma_modbus_crc_from(pe);
        let cd = crc_from(0xFFFFu16, pd);
        let ce = crc_from(0u16, err);
        assert((cd ^ ce) != cd) by (bit_vector)
            requires
                ce != 0u16,
        ;
    }
}

/// A frame with its CRC appended passes the CRC check.
pub proof fn lemma_with_crc_is_valid(payload: Seq<u8>)
    ensures
        crc_valid(with_crc(payload)),
{
    let f = with_crc(payload);
    assert(f.take(f.len() - 2) =~= payload);
    let c = modbus_crc(payload);
    assert(c as int == (c % 256) as int + 256 * (c / 256) as int);
}

/// Every request frame that `build_request` produces passes `verify_crc`.
pub proof fn lemma_request_frame_verifies(slave: u8, func_code: u8, start_reg: u16, num_regs: u16)
    ensures
        crc_valid(with_crc(request_header(slave, func_code, start_reg, num_regs))),
{
    lemma_with_crc_is_valid(request_header(slave, func_code, start_reg, num_regs));
}

} // verus!
