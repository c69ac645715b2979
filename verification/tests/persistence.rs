//! The persistence adapter: save, load, and the fallback on failure.

use quickgrav::codec::{LoadError, load, save};
use quickgrav::default_space::get_planets;
use quickgrav::planet::{Planet, Vec2};
use quickgrav::space::Space;
use quickgrav::SCALE;

fn planet(px: i64, py: i64, vx: i64, vy: i64, mass: i64, color: u32) -> Planet {
    Planet {
        position: Vec2 { x: px, y: py },
        velocity: Vec2 { x: vx, y: vy },
        mass,
        color,
    }
}

/// Round trip: loading a saved planet set yields the set itself.
#[test]
fn save_load_round_trip() {
    let planets = vec![
        planet(-3 * SCALE, 17, 0, -1_300_000, 5 * SCALE, 0x12345678),
        planet(0, 0, 0, 0, 1, 0),
        planet(9_999_999_999_999, -9_999_999_999_999, -1, 1, 2_000_000_000, 0xFFFFFFFF),
    ];
    let bytes = save(&planets);
    assert_eq!(bytes.len(), 8 + 44 * 3);
    let loaded = load(&bytes).expect("round trip must succeed");
    assert_eq!(loaded, planets);
}

#[test]
fn round_trip_of_default_system() {
    let planets = get_planets();
    let loaded = load(&save(&planets)).expect("round trip must succeed");
    assert_eq!(loaded, planets);
}

#[test]
fn empty_set_round_trips_at_codec_level() {
    let bytes = save(&Vec::new());
    assert_eq!(bytes.len(), 8);
    let loaded = load(&bytes).expect("empty set is a valid encoding");
    assert!(loaded.is_empty());
}

#[test]
fn load_rejects_short_buffer() {
    assert_eq!(load(&[]), Err(LoadError::Truncated));
    assert_eq!(load(&[1, 2, 3]), Err(LoadError::Truncated));
}

#[test]
fn load_rejects_oversized_count() {
    // Header announcing 70_000 planets (more than a set may hold).
    let mut bytes = vec![0u8; 8];
    bytes[0] = 0x70;
    bytes[1] = 0x11;
    bytes[2] = 0x01;
    assert_eq!(load(&bytes), Err(LoadError::BadCount));
}

#[test]
fn load_rejects_mismatched_length() {
    // Header announcing one planet, but no 44-byte record follows.
    let mut bytes = vec![0u8; 8];
    bytes[0] = 1;
    assert_eq!(load(&bytes), Err(LoadError::BadLength));
    // A trailing byte after a full record is rejected too.
    let mut padded = save(&vec![planet(0, 0, 0, 0, 1, 0)]);
    padded.push(0);
    assert_eq!(load(&padded), Err(LoadError::BadLength));
}

#[test]
fn load_rejects_invalid_mass() {
    let mut planets = vec![planet(0, 0, 0, 0, SCALE, 0)];
    let good = save(&planets);
    assert!(load(&good).is_ok());
    // Rewrite the mass field (bytes 40..48 of the buffer) to zero.
    planets[0].mass = 0;
    let mut bytes = good;
    for i in 40..48 {
        bytes[i] = 0;
    }
    assert_eq!(load(&bytes), Err(LoadError::BadPlanet));
}

#[test]
fn load_rejects_out_of_range_coordinate() {
    // 0x7FFF...FF little-endian position is far outside the world box.
    let mut bytes = save(&vec![planet(0, 0, 0, 0, SCALE, 0)]);
    for i in 8..16 {
        bytes[i] = 0xFF;
    }
    bytes[15] = 0x7F;
    assert_eq!(load(&bytes), Err(LoadError::BadPlanet));
}

/// A session load of corrupted bytes falls back to the default system;
/// the failure never surfaces.
#[test]
fn session_load_of_corrupted_bytes_yields_default() {
    let mut space = Space::new(None);
    let garbage = vec![0xDEu8, 0xAD, 0xBE, 0xEF, 1, 2, 3, 4, 5, 6, 7, 8, 9];
    space.load_planets(&garbage);
    assert_eq!(space.planets, get_planets());
}

/// A session load of an *empty* (but well-formed) set falls back too:
/// the engine keeps a non-empty planet set at all times.
#[test]
fn session_load_of_empty_set_yields_default() {
    let mut space = Space::new(None);
    let empty = save(&Vec::new());
    space.load_planets(&empty);
    assert_eq!(space.planets, get_planets());
}

#[test]
fn session_load_of_valid_buffer_restores_planets() {
    let planets = vec![
        planet(SCALE, 2 * SCALE, 3, 4, 7 * SCALE, 0xA1B2C3D4),
        planet(-SCALE, 0, 0, 0, SCALE, 5),
    ];
    let bytes = save(&planets);
    let mut space = Space::new(None);
    space.load_planets(&bytes);
    assert_eq!(space.planets, planets);
}

#[test]
fn new_session_from_saved_buffer() {
    let planets = vec![planet(0, 0, 0, 0, 3 * SCALE, 9)];
    let bytes = save(&planets);
    let space = Space::new(Some(&bytes));
    assert_eq!(space.planets, planets);
    assert!(space.paused);

    let fallback = Space::new(Some(&vec![7u8, 7, 7]));
    assert_eq!(fallback.planets, get_planets());
}

/// A save reads the session; it never changes the in-memory planet set.
#[test]
fn save_never_mutates_the_session() {
    let space = Space::new(None);
    let before = space.planets.clone();
    let bytes = space.save_planets();
    assert_eq!(space.planets, before);
    assert_eq!(load(&bytes).expect("own save must load"), before);
}
