use base64::Engine;
use nft_art::art::{Color, Image};
use nft_art::generate::{
    gen_art, gen_art_with_color, generate_art_data_uri, image_data_uri, ART_COLUMNS, ART_ROWS,
};
use nft_art::rng::Generator;
use nft_art::utils::FnvHasher;

fn token(n: u64) -> [u8; 32] {
    let mut bytes = [0u8; 32];
    bytes[..8].copy_from_slice(&n.to_le_bytes());
    bytes
}

fn holder(n: u8) -> [u8; 20] {
    [n; 20]
}

fn foreground_of(image: &Image<32, 32>) -> Color {
    image.pixels[4][4]
}

#[test]
fn generator_gives_what_fastrand_gives() {
    for seed in [0u64, 1, 42, 0x4d595df4d0f33173, u64::MAX] {
        let mut ours = Generator::with_seed(seed);
        let mut theirs = fastrand::Rng::with_seed(seed);
        for _ in 0..64 {
            assert_eq!(ours.next_u8(), theirs.u8(..));
            assert_eq!(ours.get_seed(), theirs.get_seed());
        }
    }
}

#[test]
fn generator_with_the_same_seed_draws_the_same() {
    let mut first = Generator::with_seed(7);
    let mut second = Generator::with_seed(7);
    let drawn: Vec<u8> = (0..100).map(|_| first.next_u8()).collect();
    let again: Vec<u8> = (0..100).map(|_| second.next_u8()).collect();
    assert_eq!(drawn, again);
    assert_eq!(first.get_seed(), second.get_seed());
}

#[test]
fn generator_holds_its_seed_and_moves_it_on() {
    let mut generator = Generator::with_seed(99);
    assert_eq!(generator.get_seed(), 99);
    generator.next_u8();
    assert_ne!(generator.get_seed(), 99);
    let held = generator.get_seed();
    let mut resumed = Generator::with_seed(held);
    assert_eq!(resumed.next_u8(), generator.next_u8());
}

#[test]
fn generator_bytes_vary() {
    let mut generator = Generator::with_seed(3);
    let drawn: Vec<u8> = (0..256).map(|_| generator.next_u8()).collect();
    let mut distinct = drawn.clone();
    distinct.sort();
    distinct.dedup();
    assert!(distinct.len() > 100);
}

#[test]
fn art_size_is_thirty_two_by_thirty_two() {
    assert_eq!((ART_ROWS, ART_COLUMNS), (32, 32));
}

#[test]
fn art_in_a_given_color() {
    let ink = Color { red: 1, green: 2, blue: 3 };
    let image = gen_art_with_color(ink);
    let mut gradient: Image<32, 32> = Image::new(Color { red: 0, green: 0, blue: 0 });
    gradient.draw_gradient(Color::from_hex(0xff0000), Color::from_hex(0x0000ff));
    let inked = [
        (4, 4),
        (4, 5),
        (4, 6),
        (10, 4),
        (10, 5),
        (10, 6),
        (4, 9),
        (4, 10),
        (5, 11),
        (6, 12),
        (7, 12),
        (8, 12),
        (9, 11),
        (10, 9),
        (10, 10),
    ];
    for y in 0..32 {
        for x in 0..32 {
            let expected = if inked.contains(&(x, y)) { ink } else { gradient.pixels[y][x] };
            assert_eq!(image.pixels[y][x], expected);
        }
    }
}

#[test]
fn art_color_comes_from_the_hash_of_token_then_address() {
    let (address, token_id) = (holder(0xab), token(0x1234));
    let mut hasher = FnvHasher::new();
    hasher.update(&token_id);
    hasher.update(&address);
    let mut rng = fastrand::Rng::with_seed(hasher.output());
    let ink = Color { red: rng.u8(..), green: rng.u8(..), blue: rng.u8(..) };
    let image = gen_art(&address, &token_id);
    assert_eq!(foreground_of(&image), ink);
    assert_eq!(image.pixels, gen_art_with_color(ink).pixels);
}

#[test]
fn art_is_the_same_every_time() {
    let (address, token_id) = (holder(1), token(1));
    let first = gen_art(&address, &token_id).make_png();
    let second = gen_art(&address, &token_id).make_png();
    assert_eq!(first, second);
    assert_eq!(
        generate_art_data_uri(&token_id, &address),
        generate_art_data_uri(&token_id, &address)
    );
}

#[test]
fn art_png_has_the_same_length_for_every_token() {
    for n in 0..20u64 {
        let png = gen_art(&holder(n as u8), &token(n * 7919)).make_png();
        assert_eq!(png.len(), 3172);
    }
}

#[test]
fn art_colors_differ_between_tokens() {
    let address = holder(5);
    let mut colors: Vec<(u8, u8, u8)> = (0..200u64)
        .map(|n| {
            let color = foreground_of(&gen_art(&address, &token(n)));
            (color.red, color.green, color.blue)
        })
        .collect();
    colors.sort();
    colors.dedup();
    assert!(colors.len() >= 195);
}

#[test]
fn art_takes_identifiers_of_any_length() {
    let short = gen_art(&[], &[]);
    let mut rng = fastrand::Rng::with_seed(14695981039346656037);
    let ink = Color { red: rng.u8(..), green: rng.u8(..), blue: rng.u8(..) };
    assert_eq!(foreground_of(&short), ink);
    let long = gen_art(&[7; 100], &[9; 1000]);
    assert_eq!(long.make_png().len(), 3172);
}

#[test]
fn art_hashes_the_token_before_the_address() {
    let swapped = gen_art(&[1, 2, 3], &[4, 5]);
    let mut hasher = FnvHasher::new();
    hasher.update(&[4, 5, 1, 2, 3]);
    let mut rng = fastrand::Rng::with_seed(hasher.output());
    let ink = Color { red: rng.u8(..), green: rng.u8(..), blue: rng.u8(..) };
    assert_eq!(foreground_of(&swapped), ink);
}

#[test]
fn data_uri_is_the_prefix_and_base64() {
    assert_eq!(image_data_uri(b"hello"), "data:image/png;base64,aGVsbG8=");
    assert_eq!(image_data_uri(&[]), "data:image/png;base64,");
    assert_eq!(image_data_uri(&[0xfb, 0xff]), "data:image/png;base64,+/8=");
}

#[test]
fn data_uri_carries_the_png_of_the_art() {
    let (address, token_id) = (holder(9), token(77));
    let uri = generate_art_data_uri(&token_id, &address);
    let encoded = uri.strip_prefix("data:image/png;base64,").map(|s| s.to_string());
    assert!(encoded.is_some());
    let png = base64::engine::general_purpose::STANDARD.decode(encoded.unwrap_or_default());
    assert_eq!(png.ok(), Some(gen_art(&address, &token_id).make_png()));
}

#[test]
fn generator_known_answers() {
    let mut generator = Generator::with_seed(42);
    let drawn: Vec<u8> = (0..5).map(|_| generator.next_u8()).collect();
    assert_eq!(drawn, vec![137, 198, 159, 8, 41]);
    assert_eq!(generator.get_seed(), 0xe20bc4ff541e5b63);
    let mut generator = Generator::with_seed(0);
    let drawn: Vec<u8> = (0..3).map(|_| generator.next_u8()).collect();
    assert_eq!(drawn, vec![214, 245, 150]);
}

#[test]
fn art_known_answers() {
    let crc = crc::Crc::<u32>::new(&crc::CRC_32_ISO_HDLC);
    let image = gen_art(&holder(0xab), &token(0x1234));
    assert_eq!(foreground_of(&image), Color { red: 187, green: 22, blue: 41 });
    let png = image.make_png();
    assert_eq!(png.len(), 3172);
    assert_eq!(crc.checksum(&png), 0x544dc450);
    assert_eq!(adler::adler32_slice(&png), 0x44fb0945);
    let image = gen_art(&[0; 20], &[0; 32]);
    assert_eq!(foreground_of(&image), Color { red: 212, green: 119, blue: 37 });
    let png = image.make_png();
    assert_eq!(crc.checksum(&png), 0xc0fd1fe0);
    assert_eq!(adler::adler32_slice(&png), 0x07df100e);
    let uri = generate_art_data_uri(&[0; 32], &[0; 20]);
    assert!(uri.starts_with("data:image/png;base64,iVBORw0KGgoAAAANSUhEUgAAACAAAAAgCAIAAAD8"));
    assert!(uri.ends_with("RU5ErkJggg=="));
}
