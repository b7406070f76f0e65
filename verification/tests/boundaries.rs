use wiki2md::parse::util::split_top_level;
use wiki2md::render::block::{
    canonicalize_mediawiki_filename, mediawiki_file_thumb_url, mediawiki_thumb_url_with,
};
use wiki2md::text::{string_from_bytes, text_of};

#[test]
fn bytes_that_are_no_text_become_replacement_characters() {
    assert_eq!(string_from_bytes(b"plain"), "plain");
    assert_eq!(string_from_bytes("caf\u{e9}".as_bytes()), "caf\u{e9}");
    assert_eq!(string_from_bytes(&[b'a', 0xff, b'b']), "a\u{fffd}b");
    assert_eq!(string_from_bytes(&[0xc3]), "\u{fffd}");
    assert_eq!(string_from_bytes(&[]), "");
}

#[test]
fn text_of_a_range_is_the_text_of_its_bytes() {
    let s = "a\u{e9}b".as_bytes();
    assert_eq!(text_of(s, 1, 3), "\u{e9}");
    assert_eq!(text_of(s, 0, 4), "a\u{e9}b");
    assert_eq!(text_of(s, 1, 2), "\u{fffd}");
    assert_eq!(text_of(s, 2, 2), "");
}

#[test]
fn splits_at_a_delimiter_of_several_bytes() {
    assert_eq!(split_top_level("a\u{e9}b\u{e9}", '\u{e9}'), vec![(0, 1), (3, 4), (6, 6)]);
    assert_eq!(split_top_level("x\u{2014}{{y\u{2014}z}}", '\u{2014}'), vec![(0, 1), (4, 13)]);
}

#[test]
fn file_names_get_an_upper_case_first_letter_and_underscores() {
    assert_eq!(canonicalize_mediawiki_filename(" some file.png "), b"Some_file.png".to_vec());
    assert_eq!(canonicalize_mediawiki_filename("Already.png"), b"Already.png".to_vec());
    assert_eq!(canonicalize_mediawiki_filename("\u{e9}a.png"), "\u{c9}a.png".as_bytes().to_vec());
    assert_eq!(canonicalize_mediawiki_filename("\u{df}x"), b"SSx".to_vec());
    assert_eq!(canonicalize_mediawiki_filename("  "), Vec::<u8>::new());
}

#[test]
fn thumbnail_addresses_hold_the_digest_of_the_name() {
    assert_eq!(
        mediawiki_file_thumb_url("https://www.chessprogramming.org/", "some file.png", 120),
        b"https://www.chessprogramming.org/images/thumb/0/05/Some_file.png/120px-Some_file.png"
            .to_vec()
    );
    assert_eq!(
        mediawiki_file_thumb_url("https://w.example", "BarendSwets.jpg", 0),
        b"https://w.example/images/a/a9/BarendSwets.jpg".to_vec()
    );
    assert_eq!(
        mediawiki_file_thumb_url("https://w.example", "\u{e9}a.png", 7),
        "https://w.example/images/thumb/b/b7/\u{c9}a.png/7px-\u{c9}a.png".as_bytes().to_vec()
    );
}

#[test]
fn thumbnail_addresses_take_their_directories_from_the_first_byte() {
    let digest = [0xa9u8, 0x18, 0, 0, 0, 0, 0, 0, 0, 0, 0, 0, 0, 0, 0, 0];
    assert_eq!(
        mediawiki_thumb_url_with(b"https://w.example//", b"N.png", 300, &digest),
        b"https://w.example/images/thumb/a/a9/N.png/300px-N.png".to_vec()
    );
    let digest = [0x05u8, 0xff, 0, 0, 0, 0, 0, 0, 0, 0, 0, 0, 0, 0, 0, 0];
    assert_eq!(
        mediawiki_thumb_url_with(b"https://w.example", b"N.png", 0, &digest),
        b"https://w.example/images/0/05/N.png".to_vec()
    );
}
