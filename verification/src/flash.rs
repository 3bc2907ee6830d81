//! Firmware images and the way they are flashed.
//!
//! Flashing rewrites the memory of a controller and cannot be undone. The image
//! is parsed and checked against the controller first; [`run_flash`] then says,
//! turn by turn, what to send and what to make of the answers. A run is a dry run
//! unless it is told otherwise.

use crate::protocol;
use crate::protocol::Frame;
use crate::text;
use vstd::prelude::*;

verus! {

// --- CRC-16/MODBUS ---------------------------------------------------------------------

/// One bit of the CRC: the reflected polynomial `0xA001`.
pub open spec fn crc_bit(crc: u16) -> u16 {
    if crc & 1 != 0 {
        (crc >> 1) ^ 0xA001
    } else {
        crc >> 1
    }
}

/// `n` bits of the CRC.
pub open spec fn crc_bits(crc: u16, n: nat) -> u16
    decreases n,
{
    if n == 0 {
        crc
    } else {
        crc_bit(crc_bits(crc, (n - 1) as nat))
    }
}

/// CRC-16/MODBUS: start `0xFFFF`, each byte into the low half, eight bits each, no
/// final change.
pub open spec fn crc_of(data: Seq<u8>) -> u16
    decreases data.len(),
{
    if data.len() == 0 {
        0xFFFF
    } else {
        crc_bits(crc_of(data.drop_last()) ^ (data.last() as u16), 8)
    }
}

/// CRC-16/MODBUS of the payload.
pub fn crc16_modbus(data: &[u8]) -> (r: u16)
    ensures
        r == crc_of(data@),
{
    let mut crc: u16 = 0xFFFF;
    let mut i: usize = 0;
    while i < data.len()
        invariant
            i <= data.len(),
            crc == crc_of(data@.take(i as int)),
        decreases data.len() - i,
    {
        assert(data@.take(i + 1).drop_last() == data@.take(i as int));
        assert(data@.take(i + 1).last() == data[i as int]);
        let start: u16 = crc ^ (data[i] as u16);
        crc = start;
        let mut k: u8 = 0;
        while k < 8
            invariant
                k <= 8,
                crc == crc_bits(start, k as nat),
            decreases 8 - k,
        {
            if crc & 1 != 0 {
                crc = (crc >> 1) ^ 0xA001;
            } else {
                crc = crc >> 1;
            }
            k += 1;
        }
        i += 1;
    }
    assert(data@.take(i as int) == data@);
    crc
}

proof fn lemma_crc_bit_injective(x: u16, y: u16)
    requires
        crc_bit(x) == crc_bit(y),
    ensures
        x == y,
{
    assert(((if x & 1 != 0 {
        (x >> 1) ^ 0xA001
    } else {
        x >> 1
    }) == (if y & 1 != 0 {
        (y >> 1) ^ 0xA001
    } else {
        y >> 1
    })) ==> x == y) by (bit_vector);
}

proof fn lemma_crc_bits_injective(x: u16, y: u16, n: nat)
    requires
        crc_bits(x, n) == crc_bits(y, n),
    ensures
        x == y,
    decreases n,
{
    if n > 0 {
        lemma_crc_bit_injective(crc_bits(x, (n - 1) as nat), crc_bits(y, (n - 1) as nat));
        lemma_crc_bits_injective(x, y, (n - 1) as nat);
    }
}

/// A wrong byte is always found out: of two payloads that differ in one byte only,
/// the CRCs differ.
pub proof fn law_crc_tells_one_byte(data: Seq<u8>, i: int, b: u8)
    requires
        0 <= i < data.len(),
        b != data[i],
    ensures
        crc_of(data.update(i, b)) != crc_of(data),
    decreases data.len(),
{
    let other = data.update(i, b);
    let last = data.last();
    let c = crc_of(data.drop_last());
    if i == data.len() - 1 {
        assert(other.drop_last() == data.drop_last());
        assert(b != last ==> c ^ (b as u16) != c ^ (last as u16)) by (bit_vector);
        if crc_of(other) == crc_of(data) {
            lemma_crc_bits_injective(c ^ (b as u16), c ^ (last as u16), 8);
        }
    } else {
        assert(other.drop_last() == data.drop_last().update(i, b));
        law_crc_tells_one_byte(data.drop_last(), i, b);
        let d = crc_of(other.drop_last());
        assert(c != d ==> c ^ (last as u16) != d ^ (last as u16)) by (bit_vector);
        if crc_of(other) == crc_of(data) {
            lemma_crc_bits_injective(d ^ (last as u16), c ^ (last as u16), 8);
        }
    }
}

proof fn lemma_empty_half(x: u16)
    requires
        x & 0xFF == 0,
    ensures
        crc_bits(x, 8) == x >> 8,
{
    assert(x & 0xFF == 0 ==> {
        &&& x & 1 == 0
        &&& (x >> 1) & 1 == 0
        &&& (x >> 1 >> 1) & 1 == 0
        &&& (x >> 1 >> 1 >> 1) & 1 == 0
        &&& (x >> 1 >> 1 >> 1 >> 1) & 1 == 0
        &&& (x >> 1 >> 1 >> 1 >> 1 >> 1) & 1 == 0
        &&& (x >> 1 >> 1 >> 1 >> 1 >> 1 >> 1) & 1 == 0
        &&& (x >> 1 >> 1 >> 1 >> 1 >> 1 >> 1 >> 1) & 1 == 0
        &&& x >> 1 >> 1 >> 1 >> 1 >> 1 >> 1 >> 1 >> 1 == x >> 8
    }) by (bit_vector);
    reveal_with_fuel(crc_bits, 9);
}

/// A payload followed by its CRC, low byte first, has the CRC zero.
pub proof fn law_crc_closes(data: Seq<u8>)
    ensures
        crc_of(data + seq![(crc_of(data) % 256) as u8, (crc_of(data) / 256) as u8]) == 0,
{
    let c = crc_of(data);
    let lo = (c % 256) as u8;
    let hi = (c / 256) as u8;
    let one = data.push(lo);
    let all = data + seq![lo, hi];
    assert(all.drop_last() == one);
    assert(one.drop_last() == data);
    assert((c ^ ((c % 256) as u16)) & 0xFF == 0 && (c ^ ((c % 256) as u16)) >> 8 == c / 256) by (
    bit_vector);
    assert(lo as u16 == c % 256);
    lemma_empty_half(c ^ (lo as u16));
    assert(crc_of(one) == c / 256);
    assert((c / 256) ^ ((c / 256) as u16) == 0) by (bit_vector);
    assert(hi as u16 == c / 256);
    assert(0u16 & 0xFF == 0 && 0u16 >> 8 == 0) by (bit_vector);
    lemma_empty_half(0);
}

// --- Image -----------------------------------------------------------------------------------

/// The header of an image: the controller that it is for.
#[derive(Debug, Clone, Copy, PartialEq, Eq, Structural)]
pub struct WwtcHeader {
    pub hw_type: u16,
    pub device: u8,
    pub family: u8,
    pub hardware_version: u16,
    pub fw_minor: u8,
    pub fw_major: u8,
}

impl WwtcHeader {
    /// The version as it is shown: `major.minor`, the minor in hexadecimal.
    pub open spec fn version_text(self) -> Seq<char> {
        text::dec(self.fw_major as nat) + "."@ + text::hex_fill(self.fw_minor as nat, 2)
    }

    /// The version as it is shown.
    pub fn version(&self) -> (r: String)
        ensures
            r@ == self.version_text(),
    {
        let mut out: String = text::dec_text(self.fw_major as u64);
        out.append(".");
        out.append(text::hex_text(self.fw_minor as u64, 2).as_str());
        out
    }
}

/// A firmware image: header, payload, and the length and the CRC that its foot
/// declares.
#[derive(Debug, Clone)]
pub struct Firmware {
    pub header: WwtcHeader,
    pub payload: Vec<u8>,
    pub declared_len: u32,
    pub declared_crc: u16,
}

impl Firmware {
    /// Number of data frames, of four bytes each.
    pub fn n_data_frames(&self) -> (r: usize)
        ensures
            r == self.payload.len() / 4,
    {
        self.payload.len() / 4
    }
}

/// The number of a little-endian pair of bytes.
pub open spec fn le16(b: Seq<u8>) -> int {
    b[0] + 256 * b[1]
}

/// The number of four little-endian bytes.
pub open spec fn le32(b: Seq<u8>) -> int {
    b[0] + 256 * b[1] + 65536 * b[2] + 16777216 * b[3]
}

/// The header that the first eight bytes hold.
pub open spec fn header_of(b: Seq<u8>) -> WwtcHeader {
    WwtcHeader {
        hw_type: le16(b.subrange(0, 2)) as u16,
        device: b[2],
        family: b[3],
        hardware_version: le16(b.subrange(4, 6)) as u16,
        fw_minor: b[6],
        fw_major: b[7],
    }
}

/// The payload: what stands between the header and the foot.
pub open spec fn payload_of(b: Seq<u8>) -> Seq<u8> {
    b.subrange(8, b.len() - 6)
}

/// The length that the foot declares.
pub open spec fn declared_len_of(b: Seq<u8>) -> int {
    le32(b.subrange(b.len() - 6, b.len() - 2))
}

/// The CRC that the foot declares.
pub open spec fn declared_crc_of(b: Seq<u8>) -> int {
    le16(b.subrange(b.len() - 2, b.len() as int))
}

/// Whether bytes are an image, or why not: too short; a foot that declares
/// another length; a payload that is no whole number of frames; a wrong CRC.
pub open spec fn wwtc_verdict(b: Seq<u8>) -> Result<(), Seq<char>> {
    if b.len() < 14 {
        Err("fichier trop court ("@ + text::dec(b.len()) + " o < 14)"@)
    } else {
        let p = payload_of(b);
        if declared_len_of(b) != p.len() {
            Err(
                "longueur du pied ("@ + text::dec(declared_len_of(b) as nat) + ") ≠ payload ("@
                    + text::dec(p.len()) + ")"@,
            )
        } else if p.len() % 4 != 0 {
            Err(
                "payload ("@ + text::dec(p.len()) + " o) non multiple de 4 (trames de 4 octets)"@,
            )
        } else if crc_of(p) != declared_crc_of(b) {
            Err(
                "CRC-16/MODBUS incorrect : calculé "@ + text::hex_prefixed(crc_of(p) as nat, 4)
                    + ", déclaré "@ + text::hex_prefixed(declared_crc_of(b) as nat, 4)
                    + " — fichier corrompu"@,
            )
        } else {
            Ok(())
        }
    }
}

fn pair(a: u8, b: u8) -> (r: u16)
    ensures
        r == a + 256 * b,
{
    a as u16 + 256 * b as u16
}

/// Parses an image and checks its length and its CRC.
pub fn parse_wwtc(bytes: &[u8]) -> (r: Result<Firmware, String>)
    ensures
        match r {
            Ok(fw) => {
                &&& wwtc_verdict(bytes@) is Ok
                &&& fw.header == header_of(bytes@)
                &&& fw.payload@ == payload_of(bytes@)
                &&& fw.declared_len == declared_len_of(bytes@)
                &&& fw.declared_crc == declared_crc_of(bytes@)
            },
            Err(m) => wwtc_verdict(bytes@) == Err::<(), Seq<char>>(m@),
        },
{
    let n: usize = bytes.len();
    if n < 14 {
        let mut m: String = "fichier trop court (".to_string();
        m.append(text::dec_text(n as u64).as_str());
        m.append(" o < 14)");
        return Err(m);
    }
    let header: WwtcHeader = WwtcHeader {
        hw_type: pair(bytes[0], bytes[1]),
        device: bytes[2],
        family: bytes[3],
        hardware_version: pair(bytes[4], bytes[5]),
        fw_minor: bytes[6],
        fw_major: bytes[7],
    };
    assert(header == header_of(bytes@));
    let mut payload: Vec<u8> = Vec::new();
    payload.extend_from_slice(vstd::slice::slice_subrange(bytes, 8, n - 6));
    assert(payload@ == payload_of(bytes@));
    let declared_len: u32 = bytes[n - 6] as u32 + 256 * bytes[n - 5] as u32 + 65536 * bytes[n
        - 4] as u32 + 16777216 * bytes[n - 3] as u32;
    let declared_crc: u16 = pair(bytes[n - 2], bytes[n - 1]);
    proof {
        let l = bytes@.subrange(n - 6, n - 2);
        assert(l[0] == bytes@[n - 6] && l[1] == bytes@[n - 5] && l[2] == bytes@[n - 4] && l[3]
            == bytes@[n - 3]);
        let c = bytes@.subrange(n - 2, n as int);
        assert(c[0] == bytes@[n - 2] && c[1] == bytes@[n - 1]);
    }
    if declared_len as u64 != payload.len() as u64 {
        let mut m: String = "longueur du pied (".to_string();
        m.append(text::dec_text(declared_len as u64).as_str());
        m.append(") ≠ payload (");
        m.append(text::dec_text(payload.len() as u64).as_str());
        m.append(")");
        return Err(m);
    }
    if payload.len() % 4 != 0 {
        let mut m: String = "payload (".to_string();
        m.append(text::dec_text(payload.len() as u64).as_str());
        m.append(" o) non multiple de 4 (trames de 4 octets)");
        return Err(m);
    }
    let crc: u16 = crc16_modbus(&payload);
    if crc != declared_crc {
        let mut m: String = "CRC-16/MODBUS incorrect : calculé ".to_string();
        m.append(text::hex_prefixed_text(crc as u64, 4).as_str());
        m.append(", déclaré ");
        m.append(text::hex_prefixed_text(declared_crc as u64, 4).as_str());
        m.append(" — fichier corrompu");
        return Err(m);
    }
    Ok(Firmware { header, payload, declared_len, declared_crc })
}

/// The eight bytes of a header.
pub open spec fn head(h: WwtcHeader) -> Seq<u8> {
    seq![
        (h.hw_type % 256) as u8,
        (h.hw_type / 256) as u8,
        h.device,
        h.family,
        (h.hardware_version % 256) as u8,
        (h.hardware_version / 256) as u8,
        h.fw_minor,
        h.fw_major,
    ]
}

/// The six bytes of a foot.
pub open spec fn foot(len: u32, crc: u16) -> Seq<u8> {
    seq![
        (len % 256) as u8,
        (len / 256 % 256) as u8,
        (len / 65536 % 256) as u8,
        (len / 16777216) as u8,
        (crc % 256) as u8,
        (crc / 256) as u8,
    ]
}

/// The bytes of an image: header, payload, and a foot with length and CRC.
pub open spec fn image(h: WwtcHeader, payload: Seq<u8>) -> Seq<u8> {
    head(h) + payload + foot(payload.len() as u32, crc_of(payload))
}

proof fn lemma_number_bytes(len: u32)
    ensures
        len % 256 + 256 * (len / 256 % 256) + 65536 * (len / 65536 % 256) + 16777216 * (len
            / 16777216) == len,
{
}

proof fn lemma_image_header(h: WwtcHeader, payload: Seq<u8>)
    ensures
        header_of(image(h, payload)) == h,
{
    let b = image(h, payload);
    assert(b.subrange(0, 2) == seq![(h.hw_type % 256) as u8, (h.hw_type / 256) as u8]);
    assert(b.subrange(4, 6) == seq![
        (h.hardware_version % 256) as u8,
        (h.hardware_version / 256) as u8,
    ]);
}

proof fn lemma_image_foot(h: WwtcHeader, payload: Seq<u8>)
    requires
        payload.len() <= u32::MAX,
    ensures
        declared_len_of(image(h, payload)) == payload.len(),
        declared_crc_of(image(h, payload)) == crc_of(payload),
{
    let b = image(h, payload);
    let n = b.len() as int;
    let len = payload.len() as u32;
    let crc = crc_of(payload);
    assert(b.subrange(n - 6, n - 2) == foot(len, crc).subrange(0, 4));
    assert(b.subrange(n - 2, n) == foot(len, crc).subrange(4, 6));
    lemma_number_bytes(len);
}

/// An image made of a header and a payload of whole frames is accepted, and gives
/// both back.
pub proof fn law_image_round_trip(h: WwtcHeader, payload: Seq<u8>)
    requires
        payload.len() % 4 == 0,
        payload.len() <= u32::MAX,
    ensures
        wwtc_verdict(image(h, payload)) is Ok,
        header_of(image(h, payload)) == h,
        payload_of(image(h, payload)) == payload,
        declared_len_of(image(h, payload)) == payload.len(),
        declared_crc_of(image(h, payload)) == crc_of(payload),
{
    lemma_image_header(h, payload);
    lemma_image_foot(h, payload);
    assert(payload_of(image(h, payload)) == payload);
}

/// A file is an image exactly when, behind eight bytes of header, it holds whole
/// frames and a foot that tells their length and their CRC, low bytes first.
pub proof fn law_accepted_images(b: Seq<u8>)
    ensures
        wwtc_verdict(b) is Ok <==> {
            let n = b.len() as int;
            &&& n >= 14
            &&& (n - 14) % 4 == 0
            &&& b[n - 6] + 256 * b[n - 5] + 65536 * b[n - 4] + 16777216 * b[n - 3] == n - 14
            &&& b[n - 2] + 256 * b[n - 1] == crc_of(b.subrange(8, n - 6))
        },
{
    let n = b.len() as int;
    if n >= 14 {
        let l = b.subrange(n - 6, n - 2);
        assert(l[0] == b[n - 6] && l[1] == b[n - 5] && l[2] == b[n - 4] && l[3] == b[n - 3]);
        let c = b.subrange(n - 2, n);
        assert(c[0] == b[n - 2] && c[1] == b[n - 1]);
    }
}

/// What a file says of itself: the type, the address, the hardware and the version
/// stand in its first eight bytes, and the foot in its last six.
pub proof fn law_where_the_image_says_it(b: Seq<u8>)
    requires
        b.len() >= 14,
    ensures
        header_of(b).hw_type == b[0] + 256 * b[1],
        header_of(b).device == b[2],
        header_of(b).family == b[3],
        header_of(b).hardware_version == b[4] + 256 * b[5],
        header_of(b).fw_minor == b[6],
        header_of(b).fw_major == b[7],
        b.subrange(0, 8) + payload_of(b) + b.subrange(b.len() - 6, b.len() as int) == b,
        declared_len_of(b) == b[b.len() - 6] + 256 * b[b.len() - 5] + 65536 * b[b.len() - 4]
            + 16777216 * b[b.len() - 3],
        declared_crc_of(b) == b[b.len() - 2] + 256 * b[b.len() - 1],
{
    let n = b.len() as int;
    let l = b.subrange(n - 6, n - 2);
    assert(l[0] == b[n - 6] && l[1] == b[n - 5] && l[2] == b[n - 4] && l[3] == b[n - 3]);
    let c = b.subrange(n - 2, n);
    assert(c[0] == b[n - 2] && c[1] == b[n - 1]);
    let t = b.subrange(0, 2);
    assert(t[0] == b[0] && t[1] == b[1]);
    let h = b.subrange(4, 6);
    assert(h[0] == b[4] && h[1] == b[5]);
    assert(b.subrange(0, 8) + payload_of(b) + b.subrange(n - 6, n) =~= b);
}

// --- Target -----------------------------------------------------------------------------------

/// The controller to be flashed, with its hardware version and type.
#[derive(Debug, Clone, Copy, PartialEq, Eq, Structural)]
pub struct FlashTarget {
    pub device: u8,
    pub family: u8,
    pub hwver: u16,
    pub hw_type: u16,
}

/// Whether an image is for the controller, or which of its address, hardware
/// version and hardware type differs first.
pub open spec fn target_verdict(h: WwtcHeader, t: FlashTarget) -> Result<(), Seq<char>> {
    if h.device != t.device || h.family != t.family {
        Err(
            "firmware pour "@ + text::hex_prefixed(h.device as nat, 2) + "/"@ + text::hex_prefixed(
                h.family as nat,
                2,
            ) + ", contrôleur "@ + text::hex_prefixed(t.device as nat, 2) + "/"@
                + text::hex_prefixed(t.family as nat, 2),
        )
    } else if h.hardware_version != t.hwver {
        Err(
            "version matérielle : firmware "@ + text::hex_prefixed(h.hardware_version as nat, 4)
                + ", contrôleur "@ + text::hex_prefixed(t.hwver as nat, 4),
        )
    } else if h.hw_type != t.hw_type {
        Err(
            "type matériel : firmware "@ + text::hex_prefixed(h.hw_type as nat, 4)
                + ", contrôleur "@ + text::hex_prefixed(t.hw_type as nat, 4),
        )
    } else {
        Ok(())
    }
}

/// Checks that an image is for the controller: address, hardware version and
/// hardware type.
pub fn check_target(fw: &Firmware, t: &FlashTarget) -> (r: Result<(), String>)
    ensures
        match r {
            Ok(()) => target_verdict(fw.header, *t) is Ok,
            Err(m) => target_verdict(fw.header, *t) == Err::<(), Seq<char>>(m@),
        },
{
    let h: &WwtcHeader = &fw.header;
    if h.device != t.device || h.family != t.family {
        let mut m: String = "firmware pour ".to_string();
        m.append(text::hex_prefixed_text(h.device as u64, 2).as_str());
        m.append("/");
        m.append(text::hex_prefixed_text(h.family as u64, 2).as_str());
        m.append(", contrôleur ");
        m.append(text::hex_prefixed_text(t.device as u64, 2).as_str());
        m.append("/");
        m.append(text::hex_prefixed_text(t.family as u64, 2).as_str());
        return Err(m);
    }
    if h.hardware_version != t.hwver {
        let mut m: String = "version matérielle : firmware ".to_string();
        m.append(text::hex_prefixed_text(h.hardware_version as u64, 4).as_str());
        m.append(", contrôleur ");
        m.append(text::hex_prefixed_text(t.hwver as u64, 4).as_str());
        return Err(m);
    }
    if h.hw_type != t.hw_type {
        let mut m: String = "type matériel : firmware ".to_string();
        m.append(text::hex_prefixed_text(h.hw_type as u64, 4).as_str());
        m.append(", contrôleur ");
        m.append(text::hex_prefixed_text(t.hw_type as u64, 4).as_str());
        return Err(m);
    }
    Ok(())
}

/// The image is accepted exactly when all that identifies the controller agrees.
pub proof fn law_target_is_exact(h: WwtcHeader, t: FlashTarget)
    ensures
        target_verdict(h, t) is Ok <==> h.device == t.device && h.family == t.family
            && h.hardware_version == t.hwver && h.hw_type == t.hw_type,
{
}

// --- Data frames --------------------------------------------------------------------------------

/// Arguments of a data frame: the offset on three bytes, then four bytes.
pub fn update_data_args(offset: u32, chunk: [u8; 4]) -> (r: [u8; 7])
    ensures
        r@ == protocol::offset_le(offset) + chunk@,
{
    let o: [u8; 3] = protocol::offset_bytes(offset);
    let r: [u8; 7] = [o[0], o[1], o[2], chunk[0], chunk[1], chunk[2], chunk[3]];
    assert(r@ == protocol::offset_le(offset) + chunk@);
    r
}

/// The four bytes of the payload at frame `k`.
pub open spec fn chunk_at(payload: Seq<u8>, k: int) -> Seq<u8> {
    payload.subrange(4 * k, 4 * k + 4)
}

fn chunk(payload: &[u8], k: usize) -> (r: (u32, [u8; 4]))
    requires
        k < payload.len() / 4,
        payload.len() <= u32::MAX,
    ensures
        r.0 == 4 * k,
        r.1@ == chunk_at(payload@, k as int),
{
    let i: usize = 4 * k;
    let w: [u8; 4] = [payload[i], payload[i + 1], payload[i + 2], payload[i + 3]];
    assert(w@ == chunk_at(payload@, k as int));
    (i as u32, w)
}

/// The payload in words of four bytes with their offsets, without what is left
/// over.
pub fn data_chunks(payload: &[u8]) -> (r: Vec<(u32, [u8; 4])>)
    requires
        payload.len() <= u32::MAX,
    ensures
        r.len() == payload.len() / 4,
        forall|k: int| 0 <= k < r.len() ==> (#[trigger] r[k]).0 == 4 * k,
        forall|k: int| 0 <= k < r.len() ==> (#[trigger] r[k]).1@ == chunk_at(payload@, k),
{
    let mut out: Vec<(u32, [u8; 4])> = Vec::new();
    let n: usize = payload.len() / 4;
    let mut k: usize = 0;
    while k < n
        invariant
            n == payload.len() / 4,
            payload.len() <= u32::MAX,
            k <= n,
            out.len() == k,
            forall|j: int| 0 <= j < k ==> (#[trigger] out[j]).0 == 4 * j,
            forall|j: int| 0 <= j < k ==> (#[trigger] out[j]).1@ == chunk_at(payload@, j),
        decreases n - k,
    {
        out.push(chunk(payload, k));
        k += 1;
    }
    out
}

/// The first `k` chunks of the payload, one after the other.
pub open spec fn chunks_joined(payload: Seq<u8>, k: nat) -> Seq<u8>
    decreases k,
{
    if k == 0 {
        Seq::empty()
    } else {
        chunks_joined(payload, (k - 1) as nat) + chunk_at(payload, k - 1)
    }
}

/// The chunks of a payload of whole frames are the payload: nothing is left out,
/// repeated or out of order.
pub proof fn law_chunks_are_the_payload(payload: Seq<u8>)
    requires
        payload.len() % 4 == 0,
    ensures
        chunks_joined(payload, payload.len() / 4) == payload,
{
    lemma_chunks_prefix(payload, payload.len() / 4);
    assert(payload.take(payload.len() as int) == payload);
}

proof fn lemma_chunks_prefix(payload: Seq<u8>, k: nat)
    requires
        4 * k <= payload.len(),
    ensures
        chunks_joined(payload, k) == payload.take(4 * k as int),
    decreases k,
{
    if k > 0 {
        lemma_chunks_prefix(payload, (k - 1) as nat);
        assert(payload.take(4 * (k - 1)) + chunk_at(payload, k - 1) == payload.take(4 * k as int));
    } else {
        assert(payload.take(0) == Seq::<u8>::empty());
    }
}

// --- Driver ---------------------------------------------------------------------------------------

/// Times to wait, in milliseconds.
pub const REENUM_TIMEOUT_MS: u64 = 12000;

pub const REENUM_POLL_MS: u64 = 400;

pub const FLASH_ECHO_TIMEOUT_MS: u64 = 1500;

pub const ERASE_TIMEOUT_MS: u64 = 5000;

/// How to flash; a dry run sends nothing.
#[derive(Debug)]
pub struct FlashOptions {
    pub dry_run: bool,
}

impl Default for FlashOptions {
    fn default() -> (r: Self)
        ensures
            r.dry_run,
    {
        FlashOptions { dry_run: true }
    }
}

/// What is reported while flashing.
#[derive(Debug, Clone)]
pub enum FlashProgress {
    Info(String),
    /// Bytes written, and bytes in all.
    Writing(usize, usize),
}

/// A report as its plain values.
#[verifier::ext_equal]
pub enum Report {
    Info(Seq<char>),
    Writing(usize, usize),
}

impl View for FlashProgress {
    type V = Report;

    open spec fn view(&self) -> Report {
        match self {
            FlashProgress::Info(s) => Report::Info(s@),
            FlashProgress::Writing(a, b) => Report::Writing(*a, *b),
        }
    }
}

/// The reports as their plain values.
pub open spec fn reports_of(v: Seq<FlashProgress>) -> Seq<Report> {
    Seq::new(v.len(), |i: int| v[i]@)
}

/// How far a run has come: what it waits for.
pub enum FlashStage {
    /// To be begun.
    Start,
    /// The endpoint is being opened to enter the bootloader.
    EnterOpen,
    /// The entry into the bootloader was sent.
    Enter,
    /// The bootloader is awaited.
    WaitBoot,
    /// The bootloader at this path is being opened.
    BootOpen(String),
    /// The erasure was sent.
    Erase,
    /// The data frame of this number was sent.
    Data(usize),
    /// The length was sent.
    Length,
    /// The CRC was sent.
    Crc,
    /// The exit from the bootloader was sent.
    Quit,
    /// The application is awaited.
    WaitApp,
    /// The run is over.
    Over,
}

/// A stage as its plain values.
#[verifier::ext_equal]
pub enum Stage {
    Start,
    EnterOpen,
    Enter,
    WaitBoot,
    BootOpen(Seq<char>),
    Erase,
    Data(nat),
    Length,
    Crc,
    Quit,
    WaitApp,
    Over,
}

impl View for FlashStage {
    type V = Stage;

    open spec fn view(&self) -> Stage {
        match self {
            FlashStage::Start => Stage::Start,
            FlashStage::EnterOpen => Stage::EnterOpen,
            FlashStage::Enter => Stage::Enter,
            FlashStage::WaitBoot => Stage::WaitBoot,
            FlashStage::BootOpen(p) => Stage::BootOpen(p@),
            FlashStage::Erase => Stage::Erase,
            FlashStage::Data(k) => Stage::Data(*k as nat),
            FlashStage::Length => Stage::Length,
            FlashStage::Crc => Stage::Crc,
            FlashStage::Quit => Stage::Quit,
            FlashStage::WaitApp => Stage::WaitApp,
            FlashStage::Over => Stage::Over,
        }
    }
}

/// What happened since the last turn.
#[derive(Debug)]
pub enum FlashEvent {
    /// The run begins.
    Begin,
    /// The endpoint was opened, or why not.
    Opened(Result<(), String>),
    /// The arguments of the echo, or `None` when none came in time.
    Ack(Option<Vec<u8>>),
    /// The path at which the controller answers in the awaited mode, or `None`
    /// when it did not in time.
    Mode(Option<String>),
}

/// An event as its plain values.
#[verifier::ext_equal]
pub enum Event {
    Begin,
    Opened(Result<(), Seq<char>>),
    Ack(Option<Seq<u8>>),
    Mode(Option<Seq<char>>),
}

impl View for FlashEvent {
    type V = Event;

    open spec fn view(&self) -> Event {
        match self {
            FlashEvent::Begin => Event::Begin,
            FlashEvent::Opened(Ok(u)) => Event::Opened(Ok(*u)),
            FlashEvent::Opened(Err(e)) => Event::Opened(Err(e@)),
            FlashEvent::Ack(Some(a)) => Event::Ack(Some(a@)),
            FlashEvent::Ack(None) => Event::Ack(None),
            FlashEvent::Mode(Some(p)) => Event::Mode(Some(p@)),
            FlashEvent::Mode(None) => Event::Mode(None),
        }
    }
}

/// What to do next.
#[derive(Debug)]
pub enum FlashAction {
    /// Open the endpoint.
    Open { path: String },
    /// Send the frame on the open endpoint and wait for the echo of the opcode.
    Exchange { frame: Frame, opcode: u8, timeout_ms: u64 },
    /// Close the endpoint and look on every endpoint for the controller in the mode.
    AwaitMode { device: u8, family: u8, mode: u8 },
    /// The run is over.
    Finish(Result<(), String>),
}

/// An action as its plain values.
#[verifier::ext_equal]
pub enum Action {
    Open(Seq<char>),
    Exchange { frame: Seq<u8>, opcode: u8, timeout_ms: u64 },
    AwaitMode { device: u8, family: u8, mode: u8 },
    Finish(Result<(), Seq<char>>),
}

impl View for FlashAction {
    type V = Action;

    open spec fn view(&self) -> Action {
        match self {
            FlashAction::Open { path } => Action::Open(path@),
            FlashAction::Exchange { frame, opcode, timeout_ms } => Action::Exchange {
                frame: frame@,
                opcode: *opcode,
                timeout_ms: *timeout_ms,
            },
            FlashAction::AwaitMode { device, family, mode } => Action::AwaitMode {
                device: *device,
                family: *family,
                mode: *mode,
            },
            FlashAction::Finish(Ok(u)) => Action::Finish(Ok(*u)),
            FlashAction::Finish(Err(e)) => Action::Finish(Err(e@)),
        }
    }
}

/// One turn of a run: what to report, then what to do.
#[derive(Debug)]
pub struct FlashTurn {
    pub reports: Vec<FlashProgress>,
    pub action: FlashAction,
}

/// A turn as its plain values, with the stage that it leads to.
#[verifier::ext_equal]
pub struct Turn {
    pub stage: Stage,
    pub reports: Seq<Report>,
    pub action: Action,
}

/// A run: which image goes to which controller, and how far it has come.
pub struct FlashRun {
    pub hidraw: String,
    pub target: FlashTarget,
    pub fw: Firmware,
    pub dry_run: bool,
    pub stage: FlashStage,
}

/// What does not change during a run.
#[verifier::ext_equal]
pub struct Run {
    pub hidraw: Seq<char>,
    pub target: FlashTarget,
    pub header: WwtcHeader,
    pub payload: Seq<u8>,
    pub declared_len: u32,
    pub declared_crc: u16,
    pub dry_run: bool,
}

impl FlashRun {
    /// What does not change during the run.
    pub open spec fn run(self) -> Run {
        Run {
            hidraw: self.hidraw@,
            target: self.target,
            header: self.fw.header,
            payload: self.fw.payload@,
            declared_len: self.fw.declared_len,
            declared_crc: self.fw.declared_crc,
            dry_run: self.dry_run,
        }
    }

    /// The payload can be addressed, and the frame that was sent is one of it.
    pub open spec fn valid(self) -> bool {
        &&& self.fw.payload.len() <= u32::MAX
        &&& self.stage@ matches Stage::Data(k) ==> k < self.fw.payload.len() / 4
    }

    /// A run that is to be begun.
    pub fn new(hidraw: String, target: FlashTarget, fw: Firmware, opts: &FlashOptions) -> (r: Self)
        requires
            fw.payload.len() <= u32::MAX,
        ensures
            r.valid(),
            r.run() == (Run {
                hidraw: hidraw@,
                target,
                header: fw.header,
                payload: fw.payload@,
                declared_len: fw.declared_len,
                declared_crc: fw.declared_crc,
                dry_run: opts.dry_run,
            }),
            r.stage@ == Stage::Start,
    {
        FlashRun { hidraw, target, fw, dry_run: opts.dry_run, stage: FlashStage::Start }
    }
}

/// The event is one that the stage waits for.
pub open spec fn fits(stage: Stage, event: Event) -> bool {
    match stage {
        Stage::Start => event is Begin,
        Stage::EnterOpen => event is Opened,
        Stage::BootOpen(_) => event is Opened,
        Stage::WaitBoot => event is Mode,
        Stage::WaitApp => event is Mode,
        Stage::Over => false,
        _ => event is Ack,
    }
}

/// Bytes in hexadecimal as a list between brackets.
pub open spec fn hex_list(b: Seq<u8>) -> Seq<char> {
    "["@ + text::joined(protocol::hex_pairs(b), ", "@) + "]"@
}

/// The summary of an image.
pub open spec fn summary(r: Run) -> Seq<char> {
    "Firmware "@ + r.header.version_text() + " — "@ + text::dec(r.payload.len()) + " octets, "@
        + text::dec(r.payload.len() / 4) + " trames, CRC "@ + text::hex_prefixed(
        r.declared_crc as nat,
        4,
    )
}

/// The text of the failure to open an endpoint.
pub open spec fn not_opened(path: Seq<char>, e: Seq<char>) -> Seq<char> {
    "ouverture "@ + path + " : "@ + e
}

/// The text of a controller that did not come back in time.
pub open spec fn not_back(t: FlashTarget, mode: u8) -> Seq<char> {
    "délai dépassé : aucun contrôleur "@ + text::hex_prefixed(t.device as nat, 2) + "/"@
        + text::hex_prefixed(t.family as nat, 2) + " en mode "@ + text::hex_prefixed(
        mode as nat,
        2,
    )
}

/// The run ends with a failure.
pub open spec fn fails(m: Seq<char>) -> Turn {
    Turn { stage: Stage::Over, reports: Seq::empty(), action: Action::Finish(Err(m)) }
}

/// The frame of an order to the controller.
pub open spec fn order_frame(r: Run, opcode: u8, args: Seq<u8>) -> Seq<u8> {
    protocol::frame_bytes(r.target.device, r.target.family, opcode, args)
}

/// The frame of an order to every controller.
pub open spec fn broadcast_frame(opcode: u8) -> Seq<u8> {
    protocol::frame_bytes(
        protocol::BROADCAST_DEVICE,
        protocol::BROADCAST_FAMILY,
        opcode,
        Seq::empty(),
    )
}

/// The data frame of number `k`.
pub open spec fn data_frame(r: Run, k: int) -> Seq<u8> {
    order_frame(
        r,
        protocol::OP_UPDATE_DATA,
        protocol::offset_le((4 * k) as u32) + chunk_at(r.payload, k),
    )
}

/// The frame that declares the length.
pub open spec fn length_frame(r: Run) -> Seq<u8> {
    order_frame(r, protocol::OP_UPDATE_DATA_LEN, protocol::offset_le(r.declared_len))
}

/// The frame that declares the CRC.
pub open spec fn crc_frame(r: Run) -> Seq<u8> {
    order_frame(
        r,
        protocol::OP_UPDATE_DATA_CRC,
        seq![(r.declared_crc % 256) as u8, (r.declared_crc / 256) as u8],
    )
}

/// The number of data frames.
pub open spec fn frame_count(r: Run) -> nat {
    r.payload.len() / 4
}

/// From frame `k` on: the frame, or, after the last one, the length.
pub open spec fn send_from(r: Run, k: nat, reports: Seq<Report>) -> Turn {
    if k < frame_count(r) {
        Turn {
            stage: Stage::Data(k),
            reports,
            action: Action::Exchange {
                frame: data_frame(r, k as int),
                opcode: protocol::OP_UPDATE_DATA,
                timeout_ms: FLASH_ECHO_TIMEOUT_MS,
            },
        }
    } else {
        let total = r.payload.len() as usize;
        Turn {
            stage: Stage::Length,
            reports: reports.push(Report::Writing(total, total)).push(
                Report::Info("Longueur + CRC…"@),
            ),
            action: Action::Exchange {
                frame: length_frame(r),
                opcode: protocol::OP_UPDATE_DATA_LEN,
                timeout_ms: FLASH_ECHO_TIMEOUT_MS,
            },
        }
    }
}

/// The acknowledgement repeats the offset.
pub open spec fn repeats_offset(ack: Seq<u8>, offset: u32) -> bool {
    ack.len() >= 3 && ack.subrange(0, 3) == protocol::offset_le(offset)
}

/// The acknowledgement begins with the status 1.
pub open spec fn status_ok(ack: Seq<u8>) -> bool {
    ack.len() > 0 && ack[0] == 1
}

/// The turn that follows an event at a stage.
pub open spec fn next_turn(r: Run, stage: Stage, event: Event) -> Turn {
    match stage {
        Stage::Start => match target_verdict(r.header, r.target) {
            Err(m) => fails(m),
            Ok(_) => if r.dry_run {
                Turn {
                    stage: Stage::Over,
                    reports: seq![
                        Report::Info(summary(r)),
                        Report::Info(
                            "DRY-RUN : aucune trame émise. Plan validé — décochez le mode simulation pour flasher."@,
                        ),
                    ],
                    action: Action::Finish(Ok(())),
                }
            } else {
                Turn {
                    stage: Stage::EnterOpen,
                    reports: seq![
                        Report::Info(summary(r)),
                        Report::Info("Passage en bootloader (0x40)…"@),
                    ],
                    action: Action::Open(r.hidraw),
                }
            },
        },
        Stage::EnterOpen => match event {
            Event::Opened(Err(e)) => fails(not_opened(r.hidraw, e)),
            _ => Turn {
                stage: Stage::Enter,
                reports: Seq::empty(),
                action: Action::Exchange {
                    frame: broadcast_frame(protocol::OP_ENTER_UPDATA_MODE),
                    opcode: protocol::OP_ENTER_UPDATA_MODE,
                    timeout_ms: FLASH_ECHO_TIMEOUT_MS,
                },
            },
        },
        Stage::Enter => match event {
            Event::Ack(Some(_)) => Turn {
                stage: Stage::WaitBoot,
                reports: seq![Report::Info("Attente de la ré-énumération (bootloader)…"@)],
                action: Action::AwaitMode {
                    device: r.target.device,
                    family: r.target.family,
                    mode: 0x01,
                },
            },
            _ => fails("pas d'accusé à ENTER_UPDATA_MODE"@),
        },
        Stage::WaitBoot => match event {
            Event::Mode(Some(path)) => Turn {
                stage: Stage::BootOpen(path),
                reports: seq![Report::Info("Bootloader confirmé sur "@ + path)],
                action: Action::Open(path),
            },
            _ => fails(not_back(r.target, 0x01)),
        },
        Stage::BootOpen(path) => match event {
            Event::Opened(Err(e)) => fails(not_opened(path, e)),
            _ => Turn {
                stage: Stage::Erase,
                reports: seq![Report::Info("Effacement (START_UPDATE 0x20)…"@)],
                action: Action::Exchange {
                    frame: order_frame(r, protocol::OP_START_UPDATE, Seq::empty()),
                    opcode: protocol::OP_START_UPDATE,
                    timeout_ms: ERASE_TIMEOUT_MS,
                },
            },
        },
        Stage::Erase => match event {
            Event::Ack(Some(ack)) => if status_ok(ack) {
                send_from(r, 0, seq![Report::Info("Écriture du firmware…"@)])
            } else {
                fails("START_UPDATE : statut inattendu "@ + hex_list(ack))
            },
            _ => fails("pas d'accusé à START_UPDATE"@),
        },
        Stage::Data(k) => match event {
            Event::Ack(Some(ack)) => if repeats_offset(ack, (4 * k) as u32) {
                send_from(
                    r,
                    k + 1,
                    if (4 * k) % 4096 == 0 {
                        seq![Report::Writing((4 * k) as usize, r.payload.len() as usize)]
                    } else {
                        Seq::empty()
                    },
                )
            } else {
                fails("offset "@ + text::dec(4 * k) + " : accusé incohérent "@ + hex_list(ack))
            },
            _ => fails("pas d'accusé à l'offset "@ + text::dec(4 * k)),
        },
        Stage::Length => match event {
            Event::Ack(Some(_)) => Turn {
                stage: Stage::Crc,
                reports: Seq::empty(),
                action: Action::Exchange {
                    frame: crc_frame(r),
                    opcode: protocol::OP_UPDATE_DATA_CRC,
                    timeout_ms: ERASE_TIMEOUT_MS,
                },
            },
            _ => fails("pas d'accusé à UPDATE_DATA_LEN"@),
        },
        Stage::Crc => match event {
            Event::Ack(Some(_)) => Turn {
                stage: Stage::Quit,
                reports: seq![Report::Info("Sortie du bootloader (0x24)…"@)],
                action: Action::Exchange {
                    frame: broadcast_frame(protocol::OP_QUIT_UPDATA_MODE),
                    opcode: protocol::OP_QUIT_UPDATA_MODE,
                    timeout_ms: FLASH_ECHO_TIMEOUT_MS,
                },
            },
            _ => fails("pas d'accusé à UPDATE_DATA_CRC (CRC refusé ?)"@),
        },
        Stage::Quit => match event {
            Event::Ack(Some(ack)) => if status_ok(ack) {
                Turn {
                    stage: Stage::WaitApp,
                    reports: seq![Report::Info("Attente du retour en mode applicatif…"@)],
                    action: Action::AwaitMode {
                        device: r.target.device,
                        family: r.target.family,
                        mode: 0x00,
                    },
                }
            } else {
                fails("QUIT_UPDATA_MODE : statut inattendu "@ + hex_list(ack))
            },
            _ => fails("pas d'accusé à QUIT_UPDATA_MODE"@),
        },
        Stage::WaitApp => match event {
            Event::Mode(Some(path)) => Turn {
                stage: Stage::Over,
                reports: seq![
                    Report::Info(
                        "Flash terminé — contrôleur de retour en mode applicatif ("@ + path
                            + ")."@,
                    ),
                ],
                action: Action::Finish(Ok(())),
            },
            _ => fails(not_back(r.target, 0x00)),
        },
        Stage::Over => Turn {
            stage: Stage::Over,
            reports: Seq::empty(),
            action: Action::Finish(Ok(())),
        },
    }
}

fn info(s: &str) -> (r: FlashProgress)
    ensures
        r@ == Report::Info(s@),
{
    FlashProgress::Info(s.to_string())
}

fn one_report(p: FlashProgress) -> (r: Vec<FlashProgress>)
    ensures
        reports_of(r@) == seq![p@],
{
    let mut v: Vec<FlashProgress> = Vec::new();
    v.push(p);
    assert(reports_of(v@) == seq![p@]);
    v
}

fn no_report() -> (r: Vec<FlashProgress>)
    ensures
        reports_of(r@) == Seq::<Report>::empty(),
{
    let v: Vec<FlashProgress> = Vec::new();
    assert(reports_of(v@) == Seq::<Report>::empty());
    v
}

fn fail(m: String) -> (r: FlashTurn)
    ensures
        reports_of(r.reports@) == fails(m@).reports,
        r.action@ == fails(m@).action,
{
    FlashTurn { reports: no_report(), action: FlashAction::Finish(Err(m)) }
}

fn concat2(a: &str, b: &str) -> (r: String)
    ensures
        r@ == a@ + b@,
{
    let mut out: String = a.to_string();
    out.append(b);
    out
}

fn hex_list_text(b: &[u8]) -> (r: String)
    ensures
        r@ == hex_list(b@),
{
    let mut out: String = "[".to_string();
    out.append(text::join_text(&protocol::hex_pair_texts(b), ", ").as_str());
    out.append("]");
    out
}

fn exchange(device: u8, family: u8, opcode: u8, args: &[u8], timeout_ms: u64) -> (r: FlashAction)
    requires
        args.len() <= 7,
    ensures
        r@ == (Action::Exchange {
            frame: protocol::frame_bytes(device, family, opcode, args@),
            opcode,
            timeout_ms,
        }),
{
    FlashAction::Exchange {
        frame: protocol::build_frame(device, family, opcode, args),
        opcode,
        timeout_ms,
    }
}

fn bare_exchange(device: u8, family: u8, opcode: u8, timeout_ms: u64) -> (r: FlashAction)
    ensures
        r@ == (Action::Exchange {
            frame: protocol::frame_bytes(device, family, opcode, Seq::empty()),
            opcode,
            timeout_ms,
        }),
{
    let none: [u8; 0] = [];
    assert(none@ == Seq::<u8>::empty());
    exchange(device, family, opcode, none.as_slice(), timeout_ms)
}

fn starts_with_one(ack: &Vec<u8>) -> (r: bool)
    ensures
        r == status_ok(ack@),
{
    ack.len() > 0 && ack[0] == 1
}

fn ack_repeats(ack: &Vec<u8>, offset: u32) -> (r: bool)
    ensures
        r == repeats_offset(ack@, offset),
{
    let o: [u8; 3] = protocol::offset_bytes(offset);
    if ack.len() < 3 {
        return false;
    }
    let same: bool = ack[0] == o[0] && ack[1] == o[1] && ack[2] == o[2];
    proof {
        let s = ack@.subrange(0, 3);
        if same {
            assert(s == o@);
        } else {
            assert(s[0] == ack@[0] && s[1] == ack@[1] && s[2] == ack@[2]);
        }
    }
    same
}

fn summary_text(fw: &Firmware) -> (r: String)
    ensures
        forall|run: Run|
            run.header == fw.header && run.payload == fw.payload@ && run.declared_crc
                == fw.declared_crc ==> r@ == #[trigger] summary(run),
{
    let mut out: String = "Firmware ".to_string();
    out.append(fw.header.version().as_str());
    out.append(" — ");
    out.append(text::dec_text(fw.payload.len() as u64).as_str());
    out.append(" octets, ");
    out.append(text::dec_text(fw.n_data_frames() as u64).as_str());
    out.append(" trames, CRC ");
    out.append(text::hex_prefixed_text(fw.declared_crc as u64, 4).as_str());
    out
}

fn not_opened_text(path: &str, e: &str) -> (r: String)
    ensures
        r@ == not_opened(path@, e@),
{
    let mut out: String = "ouverture ".to_string();
    out.append(path);
    out.append(" : ");
    out.append(e);
    out
}

fn not_back_text(t: &FlashTarget, mode: u8) -> (r: String)
    ensures
        r@ == not_back(*t, mode),
{
    let mut out: String = "délai dépassé : aucun contrôleur ".to_string();
    out.append(text::hex_prefixed_text(t.device as u64, 2).as_str());
    out.append("/");
    out.append(text::hex_prefixed_text(t.family as u64, 2).as_str());
    out.append(" en mode ");
    out.append(text::hex_prefixed_text(mode as u64, 2).as_str());
    out
}

impl FlashRun {
    /// Sends frame `k`, or the length after the last frame.
    fn send(&mut self, k: usize, reports: Vec<FlashProgress>) -> (r: FlashTurn)
        requires
            old(self).fw.payload.len() <= u32::MAX,
            k <= old(self).fw.payload.len() / 4,
        ensures
            final(self).run() == old(self).run(),
            final(self).valid(),
            ({
                let turn = send_from(old(self).run(), k as nat, reports_of(reports@));
                &&& final(self).stage@ == turn.stage
                &&& reports_of(r.reports@) == turn.reports
                &&& r.action@ == turn.action
            }),
    {
        let ghost start = reports_of(reports@);
        let device: u8 = self.target.device;
        let family: u8 = self.target.family;
        if k < self.fw.n_data_frames() {
            let (offset, word): (u32, [u8; 4]) = chunk(&self.fw.payload, k);
            let args: [u8; 7] = update_data_args(offset, word);
            self.stage = FlashStage::Data(k);
            return FlashTurn {
                reports,
                action: exchange(
                    device,
                    family,
                    protocol::OP_UPDATE_DATA,
                    args.as_slice(),
                    FLASH_ECHO_TIMEOUT_MS,
                ),
            };
        }
        let total: usize = self.fw.payload.len();
        let mut out: Vec<FlashProgress> = reports;
        out.push(FlashProgress::Writing(total, total));
        out.push(info("Longueur + CRC…"));
        assert(reports_of(out@) == start.push(Report::Writing(total, total)).push(
            Report::Info("Longueur + CRC…"@),
        ));
        let args: [u8; 3] = protocol::offset_bytes(self.fw.declared_len);
        self.stage = FlashStage::Length;
        FlashTurn {
            reports: out,
            action: exchange(
                device,
                family,
                protocol::OP_UPDATE_DATA_LEN,
                args.as_slice(),
                FLASH_ECHO_TIMEOUT_MS,
            ),
        }
    }

    fn begin(&mut self) -> (r: FlashTurn)
        requires
            old(self).fw.payload.len() <= u32::MAX,
        ensures
            final(self).run() == old(self).run(),
            final(self).valid(),
            ({
                let turn = next_turn(old(self).run(), Stage::Start, Event::Begin);
                &&& final(self).stage@ == turn.stage
                &&& reports_of(r.reports@) == turn.reports
                &&& r.action@ == turn.action
            }),
    {
        self.stage = FlashStage::Over;
        match check_target(&self.fw, &self.target) {
            Err(m) => fail(m),
            Ok(()) => {
                let mut reports: Vec<FlashProgress> = one_report(
                    FlashProgress::Info(summary_text(&self.fw)),
                );
                let ghost first = reports_of(reports@);
                assert(first == seq![Report::Info(summary(self.run()))]);
                if self.dry_run {
                    reports.push(
                        info(
                            "DRY-RUN : aucune trame émise. Plan validé — décochez le mode simulation pour flasher.",
                        ),
                    );
                    assert(reports_of(reports@) == first.push(
                        Report::Info(
                            "DRY-RUN : aucune trame émise. Plan validé — décochez le mode simulation pour flasher."@,
                        ),
                    ));
                    FlashTurn { reports, action: FlashAction::Finish(Ok(())) }
                } else {
                    reports.push(info("Passage en bootloader (0x40)…"));
                    assert(reports_of(reports@) == first.push(
                        Report::Info("Passage en bootloader (0x40)…"@),
                    ));
                    self.stage = FlashStage::EnterOpen;
                    FlashTurn {
                        reports,
                        action: FlashAction::Open { path: self.hidraw.clone() },
                    }
                }
            },
        }
    }

    fn opened(&mut self, path: Option<String>, res: Result<(), String>) -> (r: FlashTurn)
        requires
            old(self).fw.payload.len() <= u32::MAX,
        ensures
            final(self).run() == old(self).run(),
            final(self).valid(),
            ({
                let stage = match path {
                    None => Stage::EnterOpen,
                    Some(p) => Stage::BootOpen(p@),
                };
                let turn = next_turn(old(self).run(), stage, FlashEvent::Opened(res)@);
                &&& final(self).stage@ == turn.stage
                &&& reports_of(r.reports@) == turn.reports
                &&& r.action@ == turn.action
            }),
    {
        self.stage = FlashStage::Over;
        match path {
            None => match res {
                Err(e) => fail(not_opened_text(self.hidraw.as_str(), e.as_str())),
                Ok(()) => {
                    self.stage = FlashStage::Enter;
                    FlashTurn {
                        reports: no_report(),
                        action: bare_exchange(
                            protocol::BROADCAST_DEVICE,
                            protocol::BROADCAST_FAMILY,
                            protocol::OP_ENTER_UPDATA_MODE,
                            FLASH_ECHO_TIMEOUT_MS,
                        ),
                    }
                },
            },
            Some(p) => match res {
                Err(e) => fail(not_opened_text(p.as_str(), e.as_str())),
                Ok(()) => {
                    self.stage = FlashStage::Erase;
                    FlashTurn {
                        reports: one_report(info("Effacement (START_UPDATE 0x20)…")),
                        action: bare_exchange(
                            self.target.device,
                            self.target.family,
                            protocol::OP_START_UPDATE,
                            ERASE_TIMEOUT_MS,
                        ),
                    }
                },
            },
        }
    }

    fn mode_reached(&mut self, boot: bool, path: Option<String>) -> (r: FlashTurn)
        requires
            old(self).fw.payload.len() <= u32::MAX,
        ensures
            final(self).run() == old(self).run(),
            final(self).valid(),
            ({
                let stage = if boot {
                    Stage::WaitBoot
                } else {
                    Stage::WaitApp
                };
                let turn = next_turn(old(self).run(), stage, FlashEvent::Mode(path)@);
                &&& final(self).stage@ == turn.stage
                &&& reports_of(r.reports@) == turn.reports
                &&& r.action@ == turn.action
            }),
    {
        self.stage = FlashStage::Over;
        match path {
            None => {
                let mode: u8 = if boot {
                    0x01
                } else {
                    0x00
                };
                fail(not_back_text(&self.target, mode))
            },
            Some(p) => if boot {
                let report: String = concat2("Bootloader confirmé sur ", p.as_str());
                self.stage = FlashStage::BootOpen(p.clone());
                FlashTurn {
                    reports: one_report(FlashProgress::Info(report)),
                    action: FlashAction::Open { path: p },
                }
            } else {
                let mut report: String = concat2(
                    "Flash terminé — contrôleur de retour en mode applicatif (",
                    p.as_str(),
                );
                report.append(").");
                FlashTurn {
                    reports: one_report(FlashProgress::Info(report)),
                    action: FlashAction::Finish(Ok(())),
                }
            },
        }
    }

    fn acked(&mut self, stage: FlashStage, ack: Option<Vec<u8>>) -> (r: FlashTurn)
        requires
            old(self).fw.payload.len() <= u32::MAX,
            stage@ matches Stage::Data(k) ==> k < old(self).fw.payload.len() / 4,
            fits(stage@, Event::Ack(None)),
        ensures
            final(self).run() == old(self).run(),
            final(self).valid(),
            ({
                let turn = next_turn(old(self).run(), stage@, FlashEvent::Ack(ack)@);
                &&& final(self).stage@ == turn.stage
                &&& reports_of(r.reports@) == turn.reports
                &&& r.action@ == turn.action
            }),
    {
        self.stage = FlashStage::Over;
        let device: u8 = self.target.device;
        let family: u8 = self.target.family;
        match stage {
            FlashStage::Enter => match ack {
                None => fail("pas d'accusé à ENTER_UPDATA_MODE".to_string()),
                Some(_) => {
                    self.stage = FlashStage::WaitBoot;
                    FlashTurn {
                        reports: one_report(
                            info("Attente de la ré-énumération (bootloader)…"),
                        ),
                        action: FlashAction::AwaitMode { device, family, mode: 0x01 },
                    }
                },
            },
            FlashStage::Erase => match ack {
                None => fail("pas d'accusé à START_UPDATE".to_string()),
                Some(a) => if starts_with_one(&a) {
                    let reports: Vec<FlashProgress> = one_report(info("Écriture du firmware…"));
                    self.send(0, reports)
                } else {
                    fail(
                        concat2(
                            "START_UPDATE : statut inattendu ",
                            hex_list_text(&a).as_str(),
                        ),
                    )
                },
            },
            FlashStage::Data(k) => {
                let offset: u32 = 4 * k as u32;
                let place: String = text::dec_text(offset as u64);
                match ack {
                    None => fail(concat2("pas d'accusé à l'offset ", place.as_str())),
                    Some(a) => if ack_repeats(&a, offset) {
                        let reports: Vec<FlashProgress> = if offset % 4096 == 0 {
                            one_report(
                                FlashProgress::Writing(offset as usize, self.fw.payload.len()),
                            )
                        } else {
                            no_report()
                        };
                        self.send(k + 1, reports)
                    } else {
                        let mut m: String = concat2("offset ", place.as_str());
                        m.append(" : accusé incohérent ");
                        m.append(hex_list_text(&a).as_str());
                        fail(m)
                    },
                }
            },
            FlashStage::Length => match ack {
                None => fail("pas d'accusé à UPDATE_DATA_LEN".to_string()),
                Some(_) => {
                    let crc: u16 = self.fw.declared_crc;
                    let args: [u8; 2] = [(crc % 256) as u8, (crc / 256) as u8];
                    assert(args@ == seq![(crc % 256) as u8, (crc / 256) as u8]);
                    self.stage = FlashStage::Crc;
                    FlashTurn {
                        reports: no_report(),
                        action: exchange(
                            device,
                            family,
                            protocol::OP_UPDATE_DATA_CRC,
                            args.as_slice(),
                            ERASE_TIMEOUT_MS,
                        ),
                    }
                },
            },
            FlashStage::Crc => match ack {
                None => fail("pas d'accusé à UPDATE_DATA_CRC (CRC refusé ?)".to_string()),
                Some(_) => {
                    self.stage = FlashStage::Quit;
                    FlashTurn {
                        reports: one_report(info("Sortie du bootloader (0x24)…")),
                        action: bare_exchange(
                            protocol::BROADCAST_DEVICE,
                            protocol::BROADCAST_FAMILY,
                            protocol::OP_QUIT_UPDATA_MODE,
                            FLASH_ECHO_TIMEOUT_MS,
                        ),
                    }
                },
            },
            _ => match ack {
                None => fail("pas d'accusé à QUIT_UPDATA_MODE".to_string()),
                Some(a) => if starts_with_one(&a) {
                    self.stage = FlashStage::WaitApp;
                    FlashTurn {
                        reports: one_report(info("Attente du retour en mode applicatif…")),
                        action: FlashAction::AwaitMode { device, family, mode: 0x00 },
                    }
                } else {
                    fail(
                        concat2(
                            "QUIT_UPDATA_MODE : statut inattendu ",
                            hex_list_text(&a).as_str(),
                        ),
                    )
                },
            },
        }
    }
}

/// One turn of flashing: takes what happened and says what to report and what to
/// do. The first event is [`FlashEvent::Begin`]; after each action comes the event
/// that tells its result, until [`FlashAction::Finish`].
pub fn run_flash(run: &mut FlashRun, event: FlashEvent) -> (r: FlashTurn)
    requires
        old(run).valid(),
        fits(old(run).stage@, event@),
    ensures
        final(run).run() == old(run).run(),
        final(run).valid(),
        ({
            let turn = next_turn(old(run).run(), old(run).stage@, event@);
            &&& final(run).stage@ == turn.stage
            &&& reports_of(r.reports@) == turn.reports
            &&& r.action@ == turn.action
        }),
{
    let mut stage: FlashStage = FlashStage::Over;
    std::mem::swap(&mut run.stage, &mut stage);
    match event {
        FlashEvent::Begin => run.begin(),
        FlashEvent::Opened(res) => match stage {
            FlashStage::BootOpen(p) => run.opened(Some(p), res),
            _ => run.opened(None, res),
        },
        FlashEvent::Ack(ack) => run.acked(stage, ack),
        FlashEvent::Mode(path) => match stage {
            FlashStage::WaitBoot => run.mode_reached(true, path),
            _ => run.mode_reached(false, path),
        },
    }
}

// --- Laws of a run -------------------------------------------------------------------------------

/// The stage of a run after events.
pub open spec fn stage_after(r: Run, events: Seq<Event>) -> Stage
    decreases events.len(),
{
    if events.len() == 0 {
        Stage::Start
    } else {
        next_turn(r, stage_after(r, events.drop_last()), events.last()).stage
    }
}

/// Each event is one that the run was waiting for.
pub open spec fn is_history(r: Run, events: Seq<Event>) -> bool
    decreases events.len(),
{
    events.len() > 0 ==> is_history(r, events.drop_last()) && fits(
        stage_after(r, events.drop_last()),
        events.last(),
    )
}

/// What the run asks for after its events.
pub open spec fn action_after(r: Run, events: Seq<Event>) -> Action
    recommends
        events.len() > 0,
{
    next_turn(r, stage_after(r, events.drop_last()), events.last()).action
}

/// The frames that the run has asked to send, in order.
pub open spec fn frames_after(r: Run, events: Seq<Event>) -> Seq<Seq<u8>>
    decreases events.len(),
{
    if events.len() == 0 {
        Seq::empty()
    } else {
        let before = frames_after(r, events.drop_last());
        match action_after(r, events) {
            Action::Exchange { frame, .. } => before.push(frame),
            _ => before,
        }
    }
}

/// The first `k` data frames.
pub open spec fn data_frames(r: Run, k: nat) -> Seq<Seq<u8>> {
    Seq::new(k, |i: int| data_frame(r, i))
}

/// The frames up to the erasure.
pub open spec fn opening_frames(r: Run) -> Seq<Seq<u8>> {
    seq![
        broadcast_frame(protocol::OP_ENTER_UPDATA_MODE),
        order_frame(r, protocol::OP_START_UPDATE, Seq::empty()),
    ]
}

/// All the frames of a flash: entry, erasure, every data frame in order, length,
/// CRC, exit.
pub open spec fn whole_flash(r: Run) -> Seq<Seq<u8>> {
    opening_frames(r) + data_frames(r, frame_count(r)) + seq![
        length_frame(r),
        crc_frame(r),
        broadcast_frame(protocol::OP_QUIT_UPDATA_MODE),
    ]
}

/// The number of frames that have been sent at a stage.
pub open spec fn sent_at(r: Run, stage: Stage) -> int {
    let n = frame_count(r) as int;
    match stage {
        Stage::Start | Stage::EnterOpen => 0,
        Stage::Enter | Stage::WaitBoot | Stage::BootOpen(_) => 1,
        Stage::Erase => 2,
        Stage::Data(k) => 3 + k as int,
        Stage::Length => 3 + n,
        Stage::Crc => 4 + n,
        _ => 5 + n,
    }
}

/// A run that is under way has sent the frames of a flash up to where it is, and
/// no others.
pub proof fn law_frames_follow_the_plan(r: Run, events: Seq<Event>)
    requires
        is_history(r, events),
        !(stage_after(r, events) is Over),
    ensures
        0 <= sent_at(r, stage_after(r, events)) <= whole_flash(r).len(),
        frames_after(r, events) == whole_flash(r).take(sent_at(r, stage_after(r, events))),
    decreases events.len(),
{
    let whole = whole_flash(r);
    let n = frame_count(r) as int;
    assert(whole.len() == n + 5);
    if events.len() == 0 {
        assert(whole.take(0) == Seq::<Seq<u8>>::empty());
    } else {
        let before = events.drop_last();
        let s = stage_after(r, before);
        law_frames_follow_the_plan(r, before);
        lemma_data_stage(r, events);
        lemma_data_stage(r, before);
        let now = stage_after(r, events);
        let a = sent_at(r, s);
        match action_after(r, events) {
            Action::Exchange { frame, .. } => {
                assert(sent_at(r, now) == a + 1);
                assert(whole[a] == frame) by {
                    if a >= 2 && a < 2 + n {
                        assert(whole[a] == data_frame(r, a - 2));
                    }
                }
                assert(whole.take(a + 1) == whole.take(a).push(whole[a]));
            },
            _ => {
                assert(sent_at(r, now) == a);
            },
        }
    }
}

proof fn lemma_data_stage(r: Run, events: Seq<Event>)
    requires
        is_history(r, events),
    ensures
        stage_after(r, events) matches Stage::Data(k) ==> k < frame_count(r),
{
}

/// A dry run sends nothing and opens nothing.
pub proof fn law_dry_run_is_silent(r: Run, events: Seq<Event>)
    requires
        r.dry_run,
        is_history(r, events),
        events.len() > 0,
    ensures
        action_after(r, events) is Finish,
        frames_after(r, events) == Seq::<Seq<u8>>::empty(),
    decreases events.len(),
{
    let before = events.drop_last();
    if before.len() > 0 {
        law_dry_run_is_silent(r, before);
        assert(stage_after(r, before) is Over);
    } else {
        assert(frames_after(r, before) == Seq::<Seq<u8>>::empty());
    }
}

/// A run for an image that is not for the controller sends nothing.
pub proof fn law_wrong_target_sends_nothing(r: Run, events: Seq<Event>)
    requires
        target_verdict(r.header, r.target) is Err,
        is_history(r, events),
    ensures
        frames_after(r, events) == Seq::<Seq<u8>>::empty(),
    decreases events.len(),
{
    if events.len() > 0 {
        let before = events.drop_last();
        law_wrong_target_sends_nothing(r, before);
        if before.len() > 0 {
            lemma_over_after_refusal(r, before);
        }
    }
}

proof fn lemma_over_after_refusal(r: Run, events: Seq<Event>)
    requires
        target_verdict(r.header, r.target) is Err,
        is_history(r, events),
        events.len() > 0,
    ensures
        stage_after(r, events) is Over,
    decreases events.len(),
{
    if events.drop_last().len() > 0 {
        lemma_over_after_refusal(r, events.drop_last());
    }
}

/// A run that is no dry run and ends well has sent the whole flash: entry,
/// erasure, every data frame in order, length, CRC and exit.
pub proof fn law_success_means_whole_flash(r: Run, events: Seq<Event>)
    requires
        !r.dry_run,
        is_history(r, events),
        events.len() > 0,
        action_after(r, events) == Action::Finish(Ok(())),
    ensures
        frames_after(r, events) == whole_flash(r),
{
    let before = events.drop_last();
    let s = stage_after(r, before);
    assert(s is WaitApp);
    law_frames_follow_the_plan(r, before);
    assert(whole_flash(r).len() == frame_count(r) + 5);
    assert(whole_flash(r).take(whole_flash(r).len() as int) == whole_flash(r));
}

/// The run is one of the image in the file.
pub open spec fn runs_image(r: Run, b: Seq<u8>) -> bool {
    &&& wwtc_verdict(b) is Ok
    &&& r.header == header_of(b)
    &&& r.payload == payload_of(b)
    &&& r.declared_len == declared_len_of(b)
    &&& r.declared_crc == declared_crc_of(b)
}

/// The frame has this address, opcode and number of arguments.
pub open spec fn is_frame(f: Seq<u8>, device: u8, family: u8, opcode: u8, args: int) -> bool {
    &&& f.len() == 14
    &&& f[0] == 2 && f[1] == device && f[2] == family && f[3] == 0 && f[4] == 0
    &&& f[5] == args + 1
    &&& f[6] == opcode
}

/// What a run that ends well has sent is the file, byte for byte: to every
/// controller the order to enter the bootloader; then, to the controller that the
/// file names, the erasure, the bytes between header and foot by four with their
/// place, their number, and the last two bytes of the file as they stand there; and
/// to every controller the order to leave. The hardware of the controller is the
/// one that the file names.
pub proof fn law_the_file_is_what_is_sent(r: Run, b: Seq<u8>, events: Seq<Event>, k: int)
    requires
        runs_image(r, b),
        !r.dry_run,
        is_history(r, events),
        events.len() > 0,
        action_after(r, events) == Action::Finish(Ok(())),
    ensures
        ({
            let f = frames_after(r, events);
            let n = (b.len() - 14) / 4;
            let end = b.len() as int;
            &&& r.target.device == b[2] && r.target.family == b[3]
            &&& r.target.hw_type == b[0] + 256 * b[1]
            &&& r.target.hwver == b[4] + 256 * b[5]
            &&& f.len() == n + 5
            &&& is_frame(f[0], 1, 0, 0x40, 0)
            &&& is_frame(f[1], b[2], b[3], 0x20, 0)
            &&& 0 <= k < n ==> {
                &&& is_frame(f[2 + k], b[2], b[3], 0x21, 7)
                &&& f[2 + k][7] + 256 * f[2 + k][8] + 65536 * f[2 + k][9] == (4 * k) % 0x100_0000
                &&& f[2 + k][10] == b[8 + 4 * k] && f[2 + k][11] == b[9 + 4 * k]
                &&& f[2 + k][12] == b[10 + 4 * k] && f[2 + k][13] == b[11 + 4 * k]
            }
            &&& is_frame(f[n + 2], b[2], b[3], 0x22, 3)
            &&& f[n + 2][7] + 256 * f[n + 2][8] + 65536 * f[n + 2][9] == (end - 14) % 0x100_0000
            &&& is_frame(f[n + 3], b[2], b[3], 0x23, 2)
            &&& f[n + 3][7] == b[end - 2] && f[n + 3][8] == b[end - 1]
            &&& f[n + 3][7] + 256 * f[n + 3][8] == crc_of(b.subrange(8, end - 6))
            &&& is_frame(f[n + 4], 1, 0, 0x24, 0)
        }),
{
    law_accepted_images(b);
    law_where_the_image_says_it(b);
    law_success_means_whole_flash(r, events);
    let n = (b.len() - 14) / 4;
    assert(frame_count(r) == n);
    if target_verdict(r.header, r.target) is Err {
        law_wrong_target_sends_nothing(r, events);
        assert(whole_flash(r).len() == n + 5);
    }
    law_target_is_exact(r.header, r.target);
    let f = frames_after(r, events);
    assert(f[n + 2] == length_frame(r));
    assert(f[n + 3] == crc_frame(r));
    protocol::law_offset_round_trip(r.declared_len);
    if 0 <= k < n {
        assert(f[2 + k] == data_frame(r, k));
        protocol::law_offset_round_trip((4 * k) as u32);
        let w = chunk_at(r.payload, k);
        assert(w[0] == b[8 + 4 * k] && w[1] == b[9 + 4 * k] && w[2] == b[10 + 4 * k] && w[3]
            == b[11 + 4 * k]);
    }
}

/// The CRC that is told, read low byte first, is that of the payload, whatever the
/// image.
pub proof fn law_told_crc_is_that_of_the_payload(r: Run, b: Seq<u8>, event: Event)
    requires
        runs_image(r, b),
        fits(Stage::Length, event),
        next_turn(r, Stage::Length, event).action is Exchange,
    ensures
        next_turn(r, Stage::Length, event).action matches Action::Exchange { frame, .. } && {
            &&& le16(frame.subrange(7, 9)) == crc_of(r.payload)
            &&& frame[7] + 256 * frame[8] == crc_of(r.payload)
            &&& frame.subrange(7, 9) == b.subrange(b.len() - 2, b.len() as int)
        },
{
    law_accepted_images(b);
    law_where_the_image_says_it(b);
    let f = crc_frame(r);
    let c = f.subrange(7, 9);
    assert(c[0] == f[7] && c[1] == f[8]);
    assert(c =~= b.subrange(b.len() - 2, b.len() as int));
}

/// The run ends with a failure.
pub open spec fn is_failure(a: Action) -> bool {
    a is Finish && a->Finish_0 is Err
}

/// The answer to a frame is good: there is one; to the erasure and to the exit it
/// begins with one; to a data frame it repeats the place that the frame names.
pub open spec fn is_good_answer(frame: Seq<u8>, event: Event) -> bool {
    event matches Event::Ack(Some(a)) && {
        &&& frame[6] == 0x20 || frame[6] == 0x24 ==> a.len() > 0 && a[0] == 1
        &&& frame[6] == 0x21 ==> a.len() >= 3 && a[0] == frame[7] && a[1] == frame[8] && a[2]
            == frame[9]
    }
}

/// After every frame the answer decides: a run goes on exactly when the answer is
/// good, and else it ends with a failure. What is awaited is the echo of the frame,
/// longer after the erasure and after the CRC.
pub proof fn law_answers_decide(r: Run, events: Seq<Event>)
    requires
        is_history(r, events),
        events.len() > 1,
        action_after(r, events.drop_last()) is Exchange,
    ensures
        action_after(r, events.drop_last()) matches Action::Exchange { frame, opcode, timeout_ms }
            && {
            &&& opcode == frame[6]
            &&& timeout_ms == (if frame[6] == 0x20 || frame[6] == 0x23 {
                5000u64
            } else {
                1500u64
            })
            &&& is_good_answer(frame, events.last()) ==> !(action_after(r, events) is Finish)
            &&& !is_good_answer(frame, events.last()) ==> is_failure(action_after(r, events))
        },
{
    let before = events.drop_last();
    let earlier = before.drop_last();
    let s = stage_after(r, before);
    lemma_data_stage(r, before);
    match s {
        Stage::Data(k) => {
            let f = data_frame(r, k as int);
            let o = protocol::offset_le((4 * k) as u32);
            assert(f[7] == o[0] && f[8] == o[1] && f[9] == o[2]);
            match events.last() {
                Event::Ack(Some(a)) => if a.len() >= 3 {
                    let h = a.subrange(0, 3);
                    assert(h[0] == a[0] && h[1] == a[1] && h[2] == a[2]);
                    if a[0] == o[0] && a[1] == o[1] && a[2] == o[2] {
                        assert(h =~= o);
                    }
                },
                _ => {},
            }
        },
        _ => {},
    }
}

/// A run goes on from an endpoint exactly when it opened, and from a search exactly
/// when the controller was found; the bootloader that was found is opened where it
/// was found.
pub proof fn law_waits_decide(r: Run, events: Seq<Event>)
    requires
        is_history(r, events),
        events.len() > 1,
    ensures
        action_after(r, events.drop_last()) is Open ==> {
            &&& events.last() is Opened
            &&& events.last()->Opened_0 is Err ==> is_failure(action_after(r, events))
            &&& events.last()->Opened_0 is Ok ==> action_after(r, events) is Exchange
        },
        action_after(r, events.drop_last()) matches Action::AwaitMode { device, family, mode } ==> {
            &&& device == r.target.device && family == r.target.family
            &&& mode == 0 || mode == 1
            &&& events.last() is Mode
            &&& events.last()->Mode_0 is None ==> is_failure(action_after(r, events))
            &&& events.last()->Mode_0 is Some && mode == 1 ==> action_after(r, events)
                == Action::Open(events.last()->Mode_0->0)
            &&& events.last()->Mode_0 is Some && mode == 0 ==> action_after(r, events)
                == Action::Finish(Ok(()))
        },
{
}

/// What is reported of the writing: the whole is the payload, and what is done is
/// what the last answered frame has reached, at every 4096 bytes, or the whole.
pub proof fn law_progress_is_true(r: Run, stage: Stage, event: Event, i: int)
    requires
        fits(stage, event),
        r.payload.len() <= u32::MAX,
        stage matches Stage::Data(k) ==> k < r.payload.len() / 4,
        0 <= i < next_turn(r, stage, event).reports.len(),
        next_turn(r, stage, event).reports[i] is Writing,
    ensures
        ({
            let done = next_turn(r, stage, event).reports[i]->Writing_0;
            let whole = next_turn(r, stage, event).reports[i]->Writing_1;
            &&& whole == r.payload.len()
            &&& done == whole || (done % 4096 == 0 && stage is Data && done == 4 * stage->Data_0)
            &&& done == whole ==> next_turn(r, stage, event).stage is Length
        }),
{
}

/// A run that is not refused first opens the endpoint of the joystick; the
/// bootloader is awaited after the order to enter it, and the application after the
/// order to leave it.
pub proof fn law_modes_follow_their_orders(r: Run, events: Seq<Event>)
    requires
        is_history(r, events),
        events.len() > 0,
        !r.dry_run,
    ensures
        events.len() == 1 && target_verdict(r.header, r.target) is Ok ==> action_after(r, events)
            == Action::Open(r.hidraw),
        action_after(r, events) matches Action::AwaitMode { mode, .. } ==> {
            &&& frames_after(r, events).len() > 0
            &&& mode == 1 ==> frames_after(r, events).last()[6] == 0x40
            &&& mode == 0 ==> frames_after(r, events).last()[6] == 0x24
        },
{
    if action_after(r, events) is AwaitMode {
        law_frames_follow_the_plan(r, events);
        assert(whole_flash(r).len() == frame_count(r) + 5);
        let n = sent_at(r, stage_after(r, events));
        assert(whole_flash(r).take(n).last() == whole_flash(r)[n - 1]);
    }
}

/// A data frame is asked for only after the controller has confirmed the erasure,
/// or has repeated the offset of the frame before.
pub proof fn law_data_needs_confirmation(r: Run, stage: Stage, event: Event)
    requires
        fits(stage, event),
        next_turn(r, stage, event).stage is Data,
    ensures
        event matches Event::Ack(Some(ack)) && (stage is Erase && status_ok(ack) || (
        stage matches Stage::Data(k) && repeats_offset(ack, (4 * k) as u32))),
{
}

/// Which endpoint answers in the awaited mode: the mode is the last byte of the
/// answer.
pub fn answers_in_mode(payload: &[u8], mode: u8) -> (r: bool)
    ensures
        r == (payload@.len() > 0 && payload@.last() == mode),
{
    payload.len() > 0 && payload[payload.len() - 1] == mode
}

/// What to do after one endpoint was asked for the controller.
#[derive(Debug, Clone, Copy, PartialEq, Eq, Structural)]
pub enum SearchStep {
    /// The controller answers there.
    Found,
    /// Ask the next endpoint.
    Next,
    /// Wait, then ask all endpoints again.
    Sleep,
    /// Time is over.
    GiveUp,
}

/// The search for a controller in a mode, after an endpoint replied or did not:
/// every endpoint is asked before time is looked at. `left` is the number of
/// endpoints that are still to be asked.
pub fn search_step(reply: &Option<Vec<u8>>, mode: u8, left: usize, past_deadline: bool) -> (r:
    SearchStep)
    ensures
        r == if reply is Some && reply->0@.len() > 0 && reply->0@.last() == mode {
            SearchStep::Found
        } else if left > 0 {
            SearchStep::Next
        } else if past_deadline {
            SearchStep::GiveUp
        } else {
            SearchStep::Sleep
        },
{
    let found: bool = match reply {
        Some(b) => answers_in_mode(b.as_slice(), mode),
        None => false,
    };
    if found {
        SearchStep::Found
    } else if left > 0 {
        SearchStep::Next
    } else if past_deadline {
        SearchStep::GiveUp
    } else {
        SearchStep::Sleep
    }
}

/// The paths of the hidraw nodes among the names in `/dev`, in ascending order of
/// their names.
pub fn hidraw_paths(names: &Vec<String>) -> (r: Vec<String>)
    ensures
        exists|sorted: Seq<Seq<char>>|
            {
                &&& #[trigger] text::is_ascending(sorted)
                &&& sorted.to_multiset() == text::with_prefix(
                    text::views(names@),
                    "hidraw"@,
                ).to_multiset()
                &&& text::views(r@) == Seq::new(sorted.len(), |i: int| "/dev/"@ + sorted[i])
            },
{
    let sorted: Vec<String> = text::sorted_entries(names, "hidraw");
    let ghost s = text::views(sorted@);
    let mut out: Vec<String> = Vec::new();
    let mut i: usize = 0;
    assert(text::views(out@) == Seq::new(0, |j: int| "/dev/"@ + s[j]));
    while i < sorted.len()
        invariant
            i <= sorted.len(),
            s == text::views(sorted@),
            text::views(out@) == Seq::new(i as nat, |j: int| "/dev/"@ + s[j]),
        decreases sorted.len() - i,
    {
        let ghost before = text::views(out@);
        out.push(concat2("/dev/", sorted[i].as_str()));
        assert(text::views(out@) == before.push("/dev/"@ + s[i as int]));
        i += 1;
        assert(text::views(out@) == Seq::new(i as nat, |j: int| "/dev/"@ + s[j]));
    }
    assert(text::is_ascending(s));
    out
}

/// A controller is found where the last byte of an answer is the awaited mode; else
/// every endpoint is asked before the search waits or, past its time, gives up.
pub proof fn law_search_asks_every_endpoint(
    reply: &Option<Vec<u8>>,
    mode: u8,
    left: usize,
    past_deadline: bool,
    step: SearchStep,
)
    requires
        call_ensures(search_step, (reply, mode, left, past_deadline), step),
    ensures
        step is Found <==> (reply matches Some(b) && b@.len() > 0 && b@[b@.len() - 1] == mode),
        step is Next ==> left > 0,
        step is GiveUp ==> left == 0 && past_deadline,
        step is Sleep ==> left == 0 && !past_deadline,
        !(step is Found) && left > 0 ==> step is Next,
{
}

} // verus!
