use phonehash::elem::PhonehashElem;
use phonehash::phonemes::{CanPhonehash, Phonehash};
use phonehash::repr::PhonehashRepr;

#[test]
fn phonemes_it_werks() {
    let s = "Phá»Ÿenix Knight DAO++";
    let h: Phonehash<u64> = s.phonehash();
    // initial example
    assert_eq!(h.to_string(), "FMSMBWSBWS___________".to_string());

    // phonetic match
    assert_eq!("knight".phonehash::<u64>().to_string(), "MB___________________");
    assert_eq!("nite".phonehash::<u64>().to_string(), "MB___________________");
    assert_eq!("knight".phonehash::<u8>().to_string(), "MB");
    assert_eq!("nite".phonehash::<u8>().to_string(), "MB");

    // approximate
    assert_eq!("phoenix".phonehash::<u64>().to_string(), "FMS__________________");
    assert_eq!("foneks".phonehash::<u64>().to_string(), "FMS__________________");
    assert_eq!("fone6".phonehash::<u64>().to_string(), "FMS__________________");

    // substring match
    assert_eq!("knight rider".phonehash::<u64>().to_string(), "MBWBW________________");
    assert_eq!("knightrider".phonehash::<u64>().to_string(), "MBWBW________________");
    assert_eq!(
        "knight rheyedhurr".phonehash::<u64>().to_string(),
        "MBWBW________________"
    );
    assert!("knight rider".phonehash::<u64>().starts_with("nite".phonehash::<u64>()));
    assert!(
        !"knight"
            .phonehash::<u64>()
            .starts_with("nite rheyedhurr".phonehash::<u64>())
    );

    // vowel normalization
    assert_eq!("Shiba".phonehash::<u64>().to_string(), "SB___________________");
    assert_eq!("Sheba".phonehash::<u64>().to_string(), "SB___________________");
    assert_eq!(
        "aaaeeeeyyyyyeee lllaaaaammmaaaaaooo".phonehash::<u64>().to_string(),
        "WM___________________"
    );

    // spacing
    assert_eq!("co-op".phonehash::<u64>().to_string(), "SB___________________");
    assert_eq!("co   op".phonehash::<u64>().to_string(), "SB___________________");
}

#[test]
fn rendering_has_capacity_length_for_every_width() {
    for s in ["", "knight rider", "the amazing digital circus 1234567890"] {
        assert_eq!(s.phonehash::<u8>().to_string().len(), 2);
        assert_eq!(s.phonehash::<u16>().to_string().len(), 5);
        assert_eq!(s.phonehash::<u32>().to_string().len(), 10);
        assert_eq!(s.phonehash::<u64>().to_string().len(), 21);
        assert_eq!(s.phonehash::<u128>().to_string().len(), 42);
    }
}

#[test]
fn raw_round_trip() {
    for s in ["", "aaa", "knight", "the amazing digital circus", "Sheba"] {
        let h: Phonehash<u64> = s.phonehash();
        assert_eq!(Phonehash::<u64>::from_raw(h.raw()), Ok(h));
        let h8: Phonehash<u8> = s.phonehash();
        assert_eq!(Phonehash::<u8>::from_raw(h8.raw()), Ok(h8));
    }
}

#[test]
fn raw_neither_blank_nor_finalized_is_rejected() {
    let r = Phonehash::<u8>::from_raw(1u8);
    assert!(r.is_err());
    assert_eq!(r.unwrap_err().message(), "Phonehash is neither blank nor finalized");
    let r64 = Phonehash::<u64>::from_raw(0x00ff_0000_0000_0000u64);
    assert!(r64.is_err());
    assert!(Phonehash::<u64>::from_raw(0).is_ok());
    assert!(Phonehash::<u64>::from_raw(1u64 << 61).is_ok());
}

#[test]
fn spaces_and_vowels_do_not_count() {
    let coop = "coop".phonehash::<u64>();
    assert_eq!("co-op".phonehash::<u64>(), coop);
    assert_eq!("co   op".phonehash::<u64>(), coop);
    assert_eq!("caaaoooppp".phonehash::<u64>(), coop);
    let elems = vec![PhonehashElem::S, PhonehashElem::A, PhonehashElem::Space, PhonehashElem::B];
    let bare = vec![PhonehashElem::S, PhonehashElem::B];
    assert_eq!(Phonehash::<u64>::from_elements(&elems), Phonehash::<u64>::from_elements(&bare));
}

#[test]
fn repeated_consonants_collapse() {
    assert_eq!("neighbour".phonehash::<u64>(), "nayber".phonehash::<u64>());
    assert_eq!("neighbour".phonehash::<u64>().to_string(), "MBW__________________");
    let elems = vec![PhonehashElem::M, PhonehashElem::M, PhonehashElem::A, PhonehashElem::M, PhonehashElem::B];
    let once = vec![PhonehashElem::M, PhonehashElem::B];
    assert_eq!(Phonehash::<u64>::from_elements(&elems), Phonehash::<u64>::from_elements(&once));
}

#[test]
fn prefix_containment() {
    let a = "knight rider".phonehash::<u64>();
    assert!(a.starts_with("nite".phonehash::<u64>()));
    assert!(a.starts_with("knight rider".phonehash::<u64>()));
    assert!(a.starts_with("".phonehash::<u64>()));
    assert!(!a.starts_with("nite writers".phonehash::<u64>()));
    assert!(!"nite".phonehash::<u64>().starts_with(a));
    assert!(!a.starts_with("fone".phonehash::<u64>()));
}

#[test]
fn width_truncates_to_a_prefix() {
    let narrow = "knight rider".phonehash::<u8>().to_string();
    let wide = "knight rider".phonehash::<u64>().to_string();
    assert_eq!(narrow, "MB");
    assert_eq!(wide, "MBWBW________________");
    assert!(wide.starts_with(&narrow));
    assert_eq!("knight".phonehash::<u8>().to_string(), "MB");
    assert_eq!("knight".phonehash::<u64>().to_string(), "MB___________________");
}

#[test]
fn digits_and_symbols_are_spelled_out() {
    assert_eq!("7".phonehash::<u64>().to_string(), "SFM__________________");
    assert_eq!("+".phonehash::<u64>().to_string(), "BWS__________________");
    assert_eq!("&".phonehash::<u64>().to_string(), "MB___________________");
}

#[test]
fn transliteration_reaches_the_fingerprint() {
    assert_eq!("Æther".phonehash::<u64>().to_string(), "BW___________________");
    assert_eq!("Æther".phonehash::<u64>(), "aether".phonehash::<u64>());
    assert_eq!("Sheba".to_string().phonehash::<u64>(), "Sheba".phonehash::<u64>());
}

#[test]
fn elements_of_a_text() {
    assert_eq!("ph a".phonehash_elements(), vec![PhonehashElem::F, PhonehashElem::Space, PhonehashElem::A]);
    assert_eq!("kn".phonehash_elements(), vec![PhonehashElem::M]);
    assert_eq!("a kn".phonehash_elements(), vec![PhonehashElem::A, PhonehashElem::Space, PhonehashElem::M]);
    assert_eq!("gh".phonehash_elements(), Vec::<PhonehashElem>::new());
    assert!(PhonehashElem::Space.is_space());
    assert!(!PhonehashElem::A.is_space());
}

#[test]
fn repr_operations() {
    assert_eq!(<u8 as PhonehashRepr>::max_phonemes(), 2);
    assert_eq!(<u8 as PhonehashRepr>::stray_bits(), 2);
    assert_eq!(<u64 as PhonehashRepr>::max_phonemes(), 21);
    assert_eq!(<u64 as PhonehashRepr>::stray_bits(), 1);
    let mut v: u8 = 0;
    assert!(v.append(PhonehashElem::M));
    assert!(!v.append(PhonehashElem::M));
    assert!(!v.append(PhonehashElem::A));
    assert!(v.append(PhonehashElem::B));
    assert_eq!(v, 0b110_010);
    v.finalize(0);
    assert_eq!(v, 0b110_010_00);
    assert!(v.is_finalized());
    assert_eq!(v.phoneme_at(0), Some(PhonehashElem::M));
    assert_eq!(v.phoneme_at(1), Some(PhonehashElem::B));
    assert_eq!(v.phoneme_at(2), None);
}

#[test]
fn parse_gives_the_fingerprint() {
    let p: Phonehash<u64> = "knight".parse().unwrap();
    assert_eq!(p, "knight".phonehash::<u64>());
    assert_eq!(p.to_string(), "MB___________________");
}

#[test]
fn native_word_width() {
    let h = "knight rider".phonehash::<usize>();
    assert_eq!(h.to_string().len() as u32, usize::BITS / 3);
    assert!(h.to_string().starts_with("MBWBW"));
}

#[test]
fn transliteration_spells_out_non_ascii_letters() {
    // without transliteration the two bytes of the letter would be spaces
    assert_eq!("ß".phonehash::<u64>().to_string(), "S____________________");
    assert_eq!("straße".phonehash::<u64>(), "strasse".phonehash::<u64>());
}
