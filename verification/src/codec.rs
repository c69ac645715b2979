//! The persistence adapter: a planet set serialized to a byte buffer and
//! back.
//!
//! The encoding is structural and unversioned: an eight-byte little-endian
//! planet count, then one 44-byte record per planet holding position,
//! velocity, mass (little-endian two's-complement `i64` each) and color
//! (little-endian `u32`).  `load` rejects any buffer that is not exactly
//! such an encoding of a valid planet set, and says why.

use vstd::prelude::*;
use crate::fixed::{COORD_LIMIT, MASS_LIMIT, MAX_PLANETS};
use crate::planet::{Planet, Vec2, planet_ok, planets_ok};

verus! {

/// Why a byte buffer was rejected.
#[derive(Clone, Copy, Debug, PartialEq, Eq, Structural)]
pub enum LoadError {
    /// Shorter than the fixed-size header.
    Truncated,
    /// The header announces more planets than a set may hold.
    BadCount,
    /// The buffer's length does not match the announced planet count.
    BadLength,
    /// A record holds a nonpositive or oversized mass, or a coordinate
    /// outside the world box.
    BadPlanet,
}

/// The eight little-endian bytes of `v`.
pub open spec fn u64_le_bytes(v: u64) -> Seq<u8> {
    seq![
        (v & 0xFF) as u8,
        ((v >> 8) & 0xFF) as u8,
        ((v >> 16) & 0xFF) as u8,
        ((v >> 24) & 0xFF) as u8,
        ((v >> 32) & 0xFF) as u8,
        ((v >> 40) & 0xFF) as u8,
        ((v >> 48) & 0xFF) as u8,
        ((v >> 56) & 0xFF) as u8,
    ]
}

/// The value eight little-endian bytes hold.
pub open spec fn u64_from_le(b: Seq<u8>) -> u64 {
    (b[0] as u64) | ((b[1] as u64) << 8) | ((b[2] as u64) << 16) | ((b[3] as u64) << 24)
        | ((b[4] as u64) << 32) | ((b[5] as u64) << 40) | ((b[6] as u64) << 48)
        | ((b[7] as u64) << 56)
}

/// The four little-endian bytes of `v`.
pub open spec fn u32_le_bytes(v: u32) -> Seq<u8> {
    seq![
        (v & 0xFF) as u8,
        ((v >> 8) & 0xFF) as u8,
        ((v >> 16) & 0xFF) as u8,
        ((v >> 24) & 0xFF) as u8,
    ]
}

/// The value four little-endian bytes hold.
pub open spec fn u32_from_le(b: Seq<u8>) -> u32 {
    (b[0] as u32) | ((b[1] as u32) << 8) | ((b[2] as u32) << 16) | ((b[3] as u32) << 24)
}

/// The two's-complement image of an `i64`.
pub open spec fn u64_of_i64(v: i64) -> u64 {
    if v >= 0 {
        v as u64
    } else {
        (v + 0x1_0000_0000_0000_0000) as u64
    }
}

/// The `i64` a two's-complement image stands for.
pub open spec fn i64_of_u64(u: u64) -> i64 {
    if u < 0x8000_0000_0000_0000u64 {
        u as i64
    } else {
        (u - 0x1_0000_0000_0000_0000) as i64
    }
}

/// The eight little-endian two's-complement bytes of `v`.
pub open spec fn i64_le_bytes(v: i64) -> Seq<u8> {
    u64_le_bytes(u64_of_i64(v))
}

/// The `i64` eight little-endian two's-complement bytes hold.
pub open spec fn i64_from_le(b: Seq<u8>) -> i64 {
    i64_of_u64(u64_from_le(b))
}

/// Reassembling the eight bytes of `v` yields `v`.
pub proof fn lemma_u64_round_trip(v: u64)
    ensures
        u64_from_le(u64_le_bytes(v)) == v,
{
    assert((((v & 0xFF) as u8) as u64) | ((((v >> 8) & 0xFF) as u8) as u64) << 8
        | ((((v >> 16) & 0xFF) as u8) as u64) << 16 | ((((v >> 24) & 0xFF) as u8) as u64) << 24
        | ((((v >> 32) & 0xFF) as u8) as u64) << 32 | ((((v >> 40) & 0xFF) as u8) as u64) << 40
        | ((((v >> 48) & 0xFF) as u8) as u64) << 48 | ((((v >> 56) & 0xFF) as u8) as u64) << 56
        == v) by (bit_vector);
}

/// Reassembling the four bytes of `v` yields `v`.
pub proof fn lemma_u32_round_trip(v: u32)
    ensures
        u32_from_le(u32_le_bytes(v)) == v,
{
    assert((((v & 0xFF) as u8) as u32) | ((((v >> 8) & 0xFF) as u8) as u32) << 8
        | ((((v >> 16) & 0xFF) as u8) as u32) << 16 | ((((v >> 24) & 0xFF) as u8) as u32) << 24
        == v) by (bit_vector);
}

/// Reassembling the eight bytes of a signed `v` yields `v`.
pub proof fn lemma_i64_round_trip(v: i64)
    ensures
        i64_from_le(i64_le_bytes(v)) == v,
{
    lemma_u64_round_trip(u64_of_i64(v));
}

/// The 44 bytes of one planet record.
pub open spec fn planet_bytes(p: Planet) -> Seq<u8> {
    i64_le_bytes(p.position.x) + i64_le_bytes(p.position.y) + i64_le_bytes(p.velocity.x)
        + i64_le_bytes(p.velocity.y) + i64_le_bytes(p.mass) + u32_le_bytes(p.color)
}

/// The concatenated records of a planet sequence.
pub open spec fn records_bytes(s: Seq<Planet>) -> Seq<u8>
    decreases s.len(),
{
    if s.len() == 0 {
        Seq::empty()
    } else {
        records_bytes(s.drop_last()) + planet_bytes(s.last())
    }
}

/// The encoding of a planet set: an eight-byte count, then the records.
pub open spec fn encode_spec(s: Seq<Planet>) -> Seq<u8> {
    u64_le_bytes(s.len() as u64) + records_bytes(s)
}

/// The planet one 44-byte record group holds.
pub open spec fn record_planet(b: Seq<u8>) -> Planet {
    Planet {
        position: Vec2 { x: i64_from_le(b.subrange(0, 8)), y: i64_from_le(b.subrange(8, 16)) },
        velocity: Vec2 { x: i64_from_le(b.subrange(16, 24)), y: i64_from_le(b.subrange(24, 32)) },
        mass: i64_from_le(b.subrange(32, 40)),
        color: u32_from_le(b.subrange(40, 44)),
    }
}

/// The planet count the header announces.
pub open spec fn header_count(data: Seq<u8>) -> int {
    u64_from_le(data.subrange(0, 8)) as int
}

/// The planet at index `i` of the buffer's body.
pub open spec fn decoded_planet(data: Seq<u8>, i: int) -> Planet {
    record_planet(data.subrange(8 + 44 * i, 8 + 44 * i + 44))
}

/// What loading a byte buffer yields: the encoded planet set, or the
/// first reason the buffer is not an encoding of a valid set.
pub open spec fn decode_spec(data: Seq<u8>) -> Result<Seq<Planet>, LoadError> {
    if data.len() < 8 {
        Result::Err(LoadError::Truncated)
    } else if header_count(data) > MAX_PLANETS {
        Result::Err(LoadError::BadCount)
    } else if data.len() != 8 + 44 * header_count(data) {
        Result::Err(LoadError::BadLength)
    } else {
        let s = Seq::new(header_count(data) as nat, |i: int| decoded_planet(data, i));
        if planets_ok(s) {
            Result::Ok(s)
        } else {
            Result::Err(LoadError::BadPlanet)
        }
    }
}

/// The records of `s` take 44 bytes per planet.
proof fn lemma_records_len(s: Seq<Planet>)
    ensures
        records_bytes(s).len() == 44 * s.len(),
    decreases s.len(),
{
    if s.len() > 0 {
        lemma_records_len(s.drop_last());
    }
}

/// Record `i` of the concatenated records is the record of planet `i`.
proof fn lemma_record_extract(s: Seq<Planet>, i: int)
    requires
        0 <= i < s.len(),
    ensures
        records_bytes(s).subrange(44 * i, 44 * i + 44) == planet_bytes(s[i]),
    decreases s.len(),
{
    lemma_records_len(s);
    lemma_records_len(s.drop_last());
    if i == s.len() - 1 {
        assert(records_bytes(s).subrange(44 * i, 44 * i + 44) =~= planet_bytes(s[i]));
    } else {
        lemma_record_extract(s.drop_last(), i);
        assert(records_bytes(s).subrange(44 * i, 44 * i + 44) =~= records_bytes(
            s.drop_last(),
        ).subrange(44 * i, 44 * i + 44));
    }
}

/// Decoding the record of a planet yields the planet.
proof fn lemma_planet_record_round_trip(p: Planet)
    ensures
        record_planet(planet_bytes(p)) == p,
{
    let b = planet_bytes(p);
    assert(b.subrange(0, 8) =~= i64_le_bytes(p.position.x));
    assert(b.subrange(8, 16) =~= i64_le_bytes(p.position.y));
    assert(b.subrange(16, 24) =~= i64_le_bytes(p.velocity.x));
    assert(b.subrange(24, 32) =~= i64_le_bytes(p.velocity.y));
    assert(b.subrange(32, 40) =~= i64_le_bytes(p.mass));
    assert(b.subrange(40, 44) =~= u32_le_bytes(p.color));
    lemma_i64_round_trip(p.position.x);
    lemma_i64_round_trip(p.position.y);
    lemma_i64_round_trip(p.velocity.x);
    lemma_i64_round_trip(p.velocity.y);
    lemma_i64_round_trip(p.mass);
    lemma_u32_round_trip(p.color);
}

/// Round trip: loading a saved planet set yields the set itself.
pub proof fn lemma_save_load_round_trip(s: Seq<Planet>)
    requires
        planets_ok(s),
    ensures
        decode_spec(encode_spec(s)) == Result::<Seq<Planet>, LoadError>::Ok(s),
{
    let data = encode_spec(s);
    lemma_records_len(s);
    assert(data.subrange(0, 8) =~= u64_le_bytes(s.len() as u64));
    lemma_u64_round_trip(s.len() as u64);
    assert(header_count(data) == s.len());
    assert forall|i: int| 0 <= i < s.len() implies decoded_planet(data, i) == s[i] by {
        lemma_record_extract(s, i);
        assert(data.subrange(8 + 44 * i, 8 + 44 * i + 44) =~= records_bytes(s).subrange(
            44 * i,
            44 * i + 44,
        ));
        lemma_planet_record_round_trip(s[i]);
    }
    let decoded = Seq::new(header_count(data) as nat, |i: int| decoded_planet(data, i));
    assert(decoded =~= s);
}

/// The low byte of `v`.
fn low_byte(v: u64) -> (b: u8)
    ensures
        b == (v & 0xFF) as u8,
{
    proof {
        assert(v & 0xFF <= 0xFF) by (bit_vector);
    }
    (v & 0xFF) as u8
}

/// The low byte of a 32-bit `v`.
fn low_byte32(v: u32) -> (b: u8)
    ensures
        b == (v & 0xFF) as u8,
{
    proof {
        assert(v & 0xFF <= 0xFF) by (bit_vector);
    }
    (v & 0xFF) as u8
}

/// Append the eight little-endian bytes of `v`.
fn push_u64_le(out: &mut Vec<u8>, v: u64)
    ensures
        final(out)@ == old(out)@ + u64_le_bytes(v),
{
    out.push(low_byte(v));
    out.push(low_byte(v >> 8));
    out.push(low_byte(v >> 16));
    out.push(low_byte(v >> 24));
    out.push(low_byte(v >> 32));
    out.push(low_byte(v >> 40));
    out.push(low_byte(v >> 48));
    out.push(low_byte(v >> 56));
    proof {
        assert(out@ =~= old(out)@ + u64_le_bytes(v));
    }
}

/// Append the four little-endian bytes of `v`.
fn push_u32_le(out: &mut Vec<u8>, v: u32)
    ensures
        final(out)@ == old(out)@ + u32_le_bytes(v),
{
    out.push(low_byte32(v));
    out.push(low_byte32(v >> 8));
    out.push(low_byte32(v >> 16));
    out.push(low_byte32(v >> 24));
    proof {
        assert(out@ =~= old(out)@ + u32_le_bytes(v));
    }
}

/// Append the eight little-endian two's-complement bytes of `v`.
fn push_i64_le(out: &mut Vec<u8>, v: i64)
    ensures
        final(out)@ == old(out)@ + i64_le_bytes(v),
{
    let u: u64 = if v >= 0 {
        v as u64
    } else {
        let m: u64 = (-(v + 1)) as u64;
        0xFFFF_FFFF_FFFF_FFFFu64 - m
    };
    proof {
        assert(u == u64_of_i64(v));
    }
    push_u64_le(out, u);
}

/// Append the 44-byte record of one planet.
fn push_planet(out: &mut Vec<u8>, p: &Planet)
    ensures
        final(out)@ == old(out)@ + planet_bytes(*p),
{
    push_i64_le(out, p.position.x);
    push_i64_le(out, p.position.y);
    push_i64_le(out, p.velocity.x);
    push_i64_le(out, p.velocity.y);
    push_i64_le(out, p.mass);
    push_u32_le(out, p.color);
    proof {
        assert(out@ =~= old(out)@ + planet_bytes(*p));
    }
}

/// Serialize a planet set to a byte buffer.  The set itself is only read,
/// never changed, by a save.
pub fn save(planets: &Vec<Planet>) -> (r: Vec<u8>)
    requires
        planets@.len() <= MAX_PLANETS,
    ensures
        r@ == encode_spec(planets@),
{
    let ghost s = planets@;
    let mut out: Vec<u8> = Vec::new();
    push_u64_le(&mut out, planets.len() as u64);
    let mut i: usize = 0;
    while i < planets.len()
        invariant
            s == planets@,
            i <= s.len(),
            s.len() <= MAX_PLANETS,
            out@ == u64_le_bytes(s.len() as u64) + records_bytes(s.subrange(0, i as int)),
        decreases planets@.len() - i,
    {
        push_planet(&mut out, &planets[i]);
        proof {
            let pre = s.subrange(0, i as int);
            let post = s.subrange(0, i as int + 1);
            assert(post.drop_last() =~= pre);
            assert(post.last() == s[i as int]);
            assert(u64_le_bytes(s.len() as u64) + records_bytes(pre) + planet_bytes(s[i as int])
                =~= u64_le_bytes(s.len() as u64) + records_bytes(post));
        }
        i += 1;
    }
    proof {
        assert(s.subrange(0, s.len() as int) =~= s);
    }
    out
}

/// Read the `u64` at byte offset `off`.
fn read_u64_le(data: &[u8], off: usize) -> (v: u64)
    requires
        off + 8 <= data@.len(),
    ensures
        v == u64_from_le(data@.subrange(off as int, off as int + 8)),
{
    let v: u64 = (data[off] as u64) | ((data[off + 1] as u64) << 8)
        | ((data[off + 2] as u64) << 16) | ((data[off + 3] as u64) << 24)
        | ((data[off + 4] as u64) << 32) | ((data[off + 5] as u64) << 40)
        | ((data[off + 6] as u64) << 48) | ((data[off + 7] as u64) << 56);
    proof {
        let b = data@.subrange(off as int, off as int + 8);
        assert(b[0] == data@[off as int] && b[1] == data@[off as int + 1]
            && b[2] == data@[off as int + 2] && b[3] == data@[off as int + 3]
            && b[4] == data@[off as int + 4] && b[5] == data@[off as int + 5]
            && b[6] == data@[off as int + 6] && b[7] == data@[off as int + 7]);
    }
    v
}

/// Read the `u32` at byte offset `off`.
fn read_u32_le(data: &[u8], off: usize) -> (v: u32)
    requires
        off + 4 <= data@.len(),
    ensures
        v == u32_from_le(data@.subrange(off as int, off as int + 4)),
{
    let v: u32 = (data[off] as u32) | ((data[off + 1] as u32) << 8)
        | ((data[off + 2] as u32) << 16) | ((data[off + 3] as u32) << 24);
    proof {
        let b = data@.subrange(off as int, off as int + 4);
        assert(b[0] == data@[off as int] && b[1] == data@[off as int + 1]
            && b[2] == data@[off as int + 2] && b[3] == data@[off as int + 3]);
    }
    v
}

/// Read the two's-complement `i64` at byte offset `off`.
fn read_i64_le(data: &[u8], off: usize) -> (v: i64)
    requires
        off + 8 <= data@.len(),
    ensures
        v == i64_from_le(data@.subrange(off as int, off as int + 8)),
{
    let u: u64 = read_u64_le(data, off);
    if u < 0x8000_0000_0000_0000u64 {
        u as i64
    } else {
        let m: i64 = (0xFFFF_FFFF_FFFF_FFFFu64 - u) as i64;
        -m - 1
    }
}

/// Deserialize a planet set, rejecting any buffer that is not exactly the
/// encoding of a valid set, with the first reason for the rejection.
pub fn load(data: &[u8]) -> (r: Result<Vec<Planet>, LoadError>)
    ensures
        match r {
            Result::Ok(v) => decode_spec(data@) == Result::<Seq<Planet>, LoadError>::Ok(v@),
            Result::Err(e) => decode_spec(data@) == Result::<Seq<Planet>, LoadError>::Err(e),
        },
{
    if data.len() < 8 {
        return Result::Err(LoadError::Truncated);
    }
    let count_u: u64 = read_u64_le(data, 0);
    if count_u > MAX_PLANETS as u64 {
        return Result::Err(LoadError::BadCount);
    }
    let count: usize = count_u as usize;
    if data.len() != 8 + 44 * count {
        return Result::Err(LoadError::BadLength);
    }
    let ghost decoded = Seq::new(header_count(data@) as nat, |i: int| decoded_planet(data@, i));
    let mut planets: Vec<Planet> = Vec::new();
    let mut i: usize = 0;
    while i < count
        invariant
            count == header_count(data@),
            count <= MAX_PLANETS,
            data@.len() == 8 + 44 * count,
            decoded == Seq::new(header_count(data@) as nat, |k: int| decoded_planet(data@, k)),
            i <= count,
            planets@.len() == i,
            forall|k: int| 0 <= k < i ==> planets@[k] == decoded[k],
            forall|k: int| 0 <= k < i ==> planet_ok(#[trigger] decoded[k]),
        decreases count - i,
    {
        let off: usize = 8 + 44 * i;
        let px: i64 = read_i64_le(data, off);
        let py: i64 = read_i64_le(data, off + 8);
        let vx: i64 = read_i64_le(data, off + 16);
        let vy: i64 = read_i64_le(data, off + 24);
        let mass: i64 = read_i64_le(data, off + 32);
        let color: u32 = read_u32_le(data, off + 40);
        let p = Planet {
            position: Vec2 { x: px, y: py },
            velocity: Vec2 { x: vx, y: vy },
            mass,
            color,
        };
        proof {
            let b = data@.subrange(8 + 44 * (i as int), 8 + 44 * (i as int) + 44);
            assert(b.subrange(0, 8) =~= data@.subrange(off as int, off as int + 8));
            assert(b.subrange(8, 16) =~= data@.subrange(off as int + 8, off as int + 16));
            assert(b.subrange(16, 24) =~= data@.subrange(off as int + 16, off as int + 24));
            assert(b.subrange(24, 32) =~= data@.subrange(off as int + 24, off as int + 32));
            assert(b.subrange(32, 40) =~= data@.subrange(off as int + 32, off as int + 40));
            assert(b.subrange(40, 44) =~= data@.subrange(off as int + 40, off as int + 44));
            assert(p == decoded_planet(data@, i as int));
            assert(decoded[i as int] == decoded_planet(data@, i as int));
        }
        if mass <= 0 || mass > MASS_LIMIT || px > COORD_LIMIT || px < -COORD_LIMIT
            || py > COORD_LIMIT || py < -COORD_LIMIT || vx > COORD_LIMIT || vx < -COORD_LIMIT
            || vy > COORD_LIMIT || vy < -COORD_LIMIT {
            proof {
                assert(!planet_ok(decoded[i as int]));
                assert(!planets_ok(decoded));
            }
            return Result::Err(LoadError::BadPlanet);
        }
        planets.push(p);
        i += 1;
    }
    proof {
        assert(planets@ =~= decoded);
        assert(planets_ok(decoded));
    }
    Result::Ok(planets)
}

} // verus!
