use faster_utf8_validator::{validate, validate_lanes, validate_wide};

/// The verdict of the narrow validator, after checking that the wide one and
/// the two instances by lane count give the same.
fn accepts(bytes: &[u8]) -> bool {
    let narrow = validate(bytes);
    assert_eq!(narrow, validate_wide(bytes), "widths disagree on {:x?}", bytes);
    assert_eq!(narrow, validate_lanes::<16>(bytes));
    assert_eq!(narrow, validate_lanes::<32>(bytes));
    narrow
}

fn agrees_with_std(bytes: &[u8]) {
    assert_eq!(
        accepts(bytes),
        std::str::from_utf8(bytes).is_ok(),
        "disagreement on {:x?}",
        bytes
    );
}

struct Lcg(u64);

impl Lcg {
    fn next(&mut self) -> u64 {
        self.0 = self.0.wrapping_mul(6364136223846793005).wrapping_add(1442695040888963407);
        self.0 >> 33
    }
}

#[test]
fn empty_input_is_valid() {
    assert!(accepts(&[]));
}

#[test]
fn ascii_is_valid_at_every_length() {
    for len in 0..100usize {
        let bytes: Vec<u8> = (0..len).map(|i| (i * 7 % 128) as u8).collect();
        assert!(accepts(&bytes), "length {}", len);
    }
}

#[test]
fn stray_continuation_byte_is_rejected() {
    assert!(!accepts(&[0x80]));
    assert!(!accepts(&[0xBF]));
    assert!(!accepts(&[b'a', 0x80, b'b']));
}

#[test]
fn overlong_nul_is_rejected() {
    assert!(!accepts(&[0xC0, 0x80]));
    assert!(!accepts(&[0xC1, 0xBF]));
}

#[test]
fn surrogate_is_rejected() {
    assert!(!accepts(&[0xED, 0xA0, 0x80]));
    assert!(!accepts(&[0xED, 0xBF, 0xBF]));
    assert!(accepts(&[0xED, 0x9F, 0xBF]));
}

#[test]
fn value_above_the_last_scalar_is_rejected() {
    assert!(!accepts(&[0xF4, 0x90, 0x80, 0x80]));
    assert!(accepts(&[0xF4, 0x8F, 0xBF, 0xBF]));
    assert!(!accepts(&[0xF5, 0x80, 0x80, 0x80]));
    assert!(!accepts(&[0xFF]));
}

#[test]
fn euro_sign_is_valid() {
    assert!(accepts(&[0xE2, 0x82, 0xAC]));
}

#[test]
fn overlong_three_and_four_byte_forms_are_rejected() {
    assert!(!accepts(&[0xE0, 0x80, 0x80]));
    assert!(!accepts(&[0xE0, 0x9F, 0xBF]));
    assert!(accepts(&[0xE0, 0xA0, 0x80]));
    assert!(!accepts(&[0xF0, 0x80, 0x80, 0x80]));
    assert!(!accepts(&[0xF0, 0x8F, 0xBF, 0xBF]));
    assert!(accepts(&[0xF0, 0x90, 0x80, 0x80]));
}

#[test]
fn lengths_around_one_chunk() {
    for len in [0usize, 1, 15, 16, 17, 31, 32, 33, 47, 48, 49, 63, 64, 65, 95, 96, 97] {
        let ascii = vec![b'x'; len];
        assert!(accepts(&ascii), "ascii of length {}", len);
        if len >= 2 {
            let mut two = vec![b'x'; len];
            two[len - 2] = 0xC3;
            two[len - 1] = 0xA9;
            assert!(accepts(&two), "two-byte sequence at the end of {}", len);
            let mut dangling = vec![b'x'; len];
            dangling[len - 1] = 0xC3;
            assert!(!accepts(&dangling), "leader at the end of {}", len);
        }
        if len >= 1 {
            let mut stray = vec![b'x'; len];
            stray[0] = 0x80;
            assert!(!accepts(&stray), "stray byte at the start of {}", len);
        }
    }
}

#[test]
fn dropping_a_final_continuation_byte_invalidates() {
    let texts: [&str; 4] = ["é", "abc€", "0123456789abcde𝄞", "0123456789abcdefghijklmnopqrst€"];
    for text in texts {
        let bytes = text.as_bytes();
        assert!(accepts(bytes));
        let last = bytes[bytes.len() - 1];
        assert!((0x80..0xC0).contains(&last));
        assert!(!accepts(&bytes[..bytes.len() - 1]));
    }
}

#[test]
fn sequences_straddling_a_chunk_boundary() {
    let chars: [&str; 3] = ["é", "€", "𝄞"];
    for c in chars {
        let enc = c.as_bytes();
        for boundary in [16usize, 32, 48, 64] {
            for start in (boundary - enc.len())..=boundary {
                for total in [boundary, boundary + 1, boundary + 5, boundary + 16, boundary + 17] {
                    if start + enc.len() > total {
                        continue;
                    }
                    let mut bytes = vec![b'a'; total];
                    bytes[start..start + enc.len()].copy_from_slice(enc);
                    assert!(accepts(&bytes), "{:x?}", bytes);
                    // Break the sequence by overwriting its last byte.
                    let mut broken = bytes.clone();
                    broken[start + enc.len() - 1] = b'a';
                    assert!(!accepts(&broken), "{:x?}", broken);
                    // A second leader where a continuation byte is owed.
                    let mut doubled = bytes.clone();
                    doubled[start + 1] = enc[0];
                    agrees_with_std(&doubled);
                    assert!(!accepts(&doubled), "{:x?}", doubled);
                }
            }
        }
    }
}

#[test]
fn adjacent_leaders_near_a_chunk_boundary() {
    let leaders: [u8; 6] = [0xC2, 0xE0, 0xE1, 0xF0, 0xF1, 0xF4];
    for a in leaders {
        for b in leaders {
            for at in (11usize..18).chain(27..34) {
                for tail in [0x80u8, 0xA0, 0xBF, b'a'] {
                    let mut bytes = vec![b'a'; 70];
                    bytes[at] = a;
                    bytes[at + 1] = b;
                    for k in 2..6 {
                        bytes[at + k] = tail;
                    }
                    agrees_with_std(&bytes);
                }
            }
        }
    }
}

#[test]
fn halves_with_owed_bytes_do_not_concatenate() {
    let mut first = vec![b'a'; 16];
    first[15] = 0xE2;
    let second_ok: Vec<u8> = [0x82u8, 0xAC].iter().copied().chain(std::iter::repeat(b'b').take(14)).collect();
    let second_ascii = vec![b'b'; 16];
    assert!(!accepts(&first));
    assert!(!accepts(&second_ok));
    let joined: Vec<u8> = first.iter().chain(second_ok.iter()).copied().collect();
    assert!(accepts(&joined));
    let joined_bad: Vec<u8> = first.iter().chain(second_ascii.iter()).copied().collect();
    assert!(!accepts(&joined_bad));
    let plain = vec![b'a'; 16];
    let both: Vec<u8> = plain.iter().chain(second_ascii.iter()).copied().collect();
    assert!(accepts(&plain) && accepts(&second_ascii) && accepts(&both));
}

#[test]
fn every_one_and_two_byte_input_agrees_with_std() {
    for a in 0..=255u8 {
        agrees_with_std(&[a]);
        for b in 0..=255u8 {
            agrees_with_std(&[a, b]);
        }
    }
}

#[test]
fn every_three_byte_input_with_a_leader_agrees_with_std() {
    for a in 0xC0..=255u8 {
        for b in 0..=255u8 {
            for c in [0x00u8, 0x7F, 0x80, 0x8F, 0x90, 0x9F, 0xA0, 0xBF, 0xC0, 0xE0, 0xF0, 0xFF] {
                agrees_with_std(&[a, b, c]);
            }
        }
    }
}

#[test]
fn every_byte_pair_across_the_first_boundary_agrees_with_std() {
    for a in 0x70..=255u8 {
        for b in 0x70..=255u8 {
            for edge in [16usize, 32] {
                let mut bytes = vec![b'a'; edge + 4];
                bytes[edge - 1] = a;
                bytes[edge] = b;
                agrees_with_std(&bytes);
                bytes[edge + 1] = 0x80;
                agrees_with_std(&bytes);
                bytes[edge - 2] = 0xF0;
                agrees_with_std(&bytes);
            }
        }
    }
}

#[test]
fn random_bytes_agree_with_std() {
    let mut rng = Lcg(0x5DEECE66D);
    let alphabet: [u8; 16] = [
        b'a', 0x00, 0x7F, 0x80, 0x8F, 0x90, 0xA0, 0xBF, 0xC0, 0xC2, 0xE0, 0xED, 0xEF, 0xF0, 0xF4,
        0xF5,
    ];
    for _ in 0..20000 {
        let len = (rng.next() % 100) as usize;
        let bytes: Vec<u8> = (0..len).map(|_| alphabet[(rng.next() % 16) as usize]).collect();
        agrees_with_std(&bytes);
    }
}

#[test]
fn random_text_is_valid_and_damage_agrees_with_std() {
    let mut rng = Lcg(42);
    let pool: [char; 8] = ['a', 'Z', 'é', 'ß', '€', '한', '𝄞', '\u{10FFFF}'];
    for _ in 0..5000 {
        let n = (rng.next() % 40) as usize;
        let text: String = (0..n).map(|_| pool[(rng.next() % 8) as usize]).collect();
        let mut bytes = text.into_bytes();
        assert!(accepts(&bytes));
        if !bytes.is_empty() {
            let at = (rng.next() as usize) % bytes.len();
            bytes[at] = (rng.next() % 256) as u8;
            agrees_with_std(&bytes);
            bytes[0] = 0;
            agrees_with_std(&bytes);
        }
    }
}
