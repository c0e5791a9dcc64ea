use astral_wfp::condition::to_wide_string;
use astral_wfp::hops::split_words;
use astral_wfp::network::IpNetwork;
use astral_wfp::text::{chars_of, parse_unsigned};

struct Lcg(u64);

impl Lcg {
    fn next(&mut self) -> u64 {
        self.0 = self.0.wrapping_mul(6364136223846793005).wrapping_add(1442695040888963407);
        self.0 >> 33
    }

    fn below(&mut self, n: u64) -> u64 {
        self.next() % n
    }
}

#[test]
fn prefix_lengths_read_as_the_standard_library_reads_them() {
    let alphabet: Vec<char> = "0123456789+- ".chars().collect();
    let mut rng = Lcg(7);
    for _ in 0..100_000 {
        let len = rng.below(6) as usize;
        let text: String =
            (0..len).map(|_| alphabet[rng.below(alphabet.len() as u64) as usize]).collect();
        let expected = text.parse::<u8>().ok().map(|v| v as u32);
        assert_eq!(parse_unsigned(&chars_of(&text), 255), expected, "{:?}", text);
        let expected = text.parse::<u32>().ok();
        assert_eq!(parse_unsigned(&chars_of(&text), u32::MAX), expected, "{:?}", text);
        let cidr = format!("10.1.2.3/{}", text);
        let ok = text.parse::<u8>().map(|v| v <= 32).unwrap_or(false);
        assert_eq!(IpNetwork::from_cidr(&cidr).is_ok(), ok, "{:?}", cidr);
    }
}

#[test]
fn every_character_encodes_as_the_standard_library_encodes_it() {
    let mut buffer = [0u16; 2];
    for code in 0..=0x10FFFFu32 {
        if let Some(c) = char::from_u32(code) {
            let mut expected: Vec<u16> = c.encode_utf16(&mut buffer).to_vec();
            expected.push(0);
            let text = c.to_string();
            assert_eq!(to_wide_string(&text), expected, "{:x}", code);
        }
    }
}

#[test]
fn white_space_is_what_the_standard_library_takes_for_it() {
    for code in 0..=0x10FFFFu32 {
        if let Some(c) = char::from_u32(code) {
            let words = split_words(&vec!['a', c, 'b']);
            assert_eq!(words.len() == 2, c.is_whitespace(), "{:x}", code);
        }
    }
}
