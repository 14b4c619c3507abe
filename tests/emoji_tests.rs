use std::str::FromStr;
use emoji_builder::emoji::{Emoji, EmojiError};
use emoji_builder::emoji_kind::{EmojiKind, UnknownEmojiKind};
use emoji_builder::emoji_status::EmojiStatus;
use emoji_builder::tables::{strip_fe0f, update_description, Fe0fHandling};

#[test]
fn identity_is_the_sequence() {
    let mut a = Emoji::from(vec![0x1f914]);
    let b = Emoji::from(vec![0x1f914]);
    a.name = Some("Thinking Face".to_string());
    assert_eq!(a, b);
    assert_ne!(a, Emoji::from(vec![0x1f914, 0xfe0f]));
}

#[test]
fn empty_sequence_is_refused() {
    assert!(matches!(Emoji::from_u32_sequence(vec![]), Err(EmojiError::NoValidCodepointsFound(_))));
    let emoji = Emoji::from_u32_sequence(vec![0x1f3f3, 0x200d, 0xf308]).unwrap();
    assert_eq!(emoji.sequence, vec![0x1f3f3, 0x200d, 0xf308]);
    assert_eq!(emoji.name, None);
}

#[test]
fn guess_kinds_by_shape() {
    assert_eq!(Emoji::from(vec![0x1f914]).guess_kinds(), Some(vec![EmojiKind::Emoji]));
    assert_eq!(Emoji::from(vec![0x1f914, 0x200d, 0x42]).guess_kinds(), Some(vec![EmojiKind::EmojiZwjSequence]));
    assert_eq!(Emoji::from(vec![0x1f914, 0x42]).guess_kinds(), Some(vec![EmojiKind::EmojiSequence]));
    assert_eq!(Emoji::from(vec![]).guess_kinds(), None);
    assert_eq!(
        Emoji::from(vec![0x1f1e9, 0x1f1ea]).guess_kinds(),
        Some(vec![EmojiKind::EmojiFlagSequence, EmojiKind::EmojiSequence])
    );
    assert_eq!(
        Emoji::from(vec![0x2a, 0xfe0f, 0x20e3]).guess_kinds(),
        Some(vec![EmojiKind::EmojiKeycapSequence, EmojiKind::EmojiSequence])
    );
}

#[test]
fn guess_kind_by_shape() {
    assert_eq!(Emoji::from(vec![0x1f914]).guess_kind(), Some(EmojiKind::Emoji));
    assert_eq!(Emoji::from(vec![0x1f914, 0x200d, 0x42]).guess_kind(), Some(EmojiKind::EmojiZwjSequence));
    assert_eq!(Emoji::from(vec![0x1f914, 0x42]).guess_kind(), Some(EmojiKind::EmojiSequence));
    assert_eq!(Emoji::from(vec![]).guess_kind(), None);
}

#[test]
fn flags_by_shape_and_kind() {
    let germany = Emoji::from(vec![0x1f1e9, 0x1f1ea]);
    assert!(germany.is_flag());
    assert!(germany.is_country_flag());
    assert!(!germany.is_subdiv_flag());
    assert_eq!(germany.get_flag_name(), Some("DE".to_string()));

    let salzburg = Emoji::from(vec![0x1f3f4, 0xe0061, 0xe0074, 0xe0035, 0xe007f]);
    assert!(salzburg.is_subdiv_flag());
    assert!(salzburg.is_flag());
    assert_eq!(salzburg.get_flag_name(), Some("AT-5".to_string()));

    let nrw = Emoji::from(vec![0x1f3f4, 0xe0064, 0xe0065, 0xe006e, 0xe0077, 0xe007f]);
    assert_eq!(nrw.get_flag_name(), Some("DE-NW".to_string()));

    let thinking = Emoji::from(vec![0x1f914]);
    assert!(!thinking.is_flag());
    assert_eq!(thinking.get_flag_name(), None);
    assert!(!Emoji::from(vec![]).is_flag());

    let mut tagged = Emoji::from(vec![0x1f3f4]);
    tagged.kinds = Some(vec![EmojiKind::Emoji, EmojiKind::EmojiFlagSequence]);
    assert!(tagged.is_flag());
}

#[test]
fn display_emoji_gives_the_characters() {
    assert_eq!(Emoji::from(vec![0x1f60d]).display_emoji(), "😍");
    assert_eq!(Emoji::from(vec![0x41, 0xd800, 0x42]).display_emoji(), "AB");
}

#[test]
fn alias_keeps_metadata() {
    let mut emoji = Emoji::from(vec![0x1f600]);
    emoji.name = Some("grinning".to_string());
    emoji.kinds = Some(vec![EmojiKind::Emoji, EmojiKind::Other("x y".to_string())]);
    emoji.set_path(std::path::PathBuf::from("svg/emoji_u1f600.svg"));
    let alias = emoji.alias(vec![0x1f601]);
    assert_eq!(alias.sequence, vec![0x1f601]);
    assert_eq!(alias.name, Some("grinning".to_string()));
    assert_eq!(alias.kinds, Some(vec![EmojiKind::Emoji, EmojiKind::Other("x y".to_string())]));
    assert_eq!(alias.svg_path, Some(std::path::PathBuf::from("svg/emoji_u1f600.svg")));
    assert_eq!(emoji.sequence, vec![0x1f600]);
}

#[test]
fn status_is_emoji() {
    assert!(EmojiStatus::Component.is_emoji());
    assert!(EmojiStatus::FullyQualified.is_emoji());
    assert!(EmojiStatus::MinimallyQualified.is_emoji());
    assert!(!EmojiStatus::Unqualified.is_emoji());
    assert_eq!(EmojiStatus::default(), EmojiStatus::Unqualified);
}

#[test]
fn unknown_kind_gives_its_text() {
    let unknown = UnknownEmojiKind(EmojiKind::Other(":p".to_string()));
    assert_eq!(unknown.get(), EmojiKind::Other(":p".to_string()));
    assert_ne!(EmojiKind::Other("a".to_string()), EmojiKind::Other("b".to_string()));
    assert_ne!(EmojiKind::Emoji, EmojiKind::EmojiSequence);
}

#[test]
fn strip_fe0f_removes_selectors() {
    assert_eq!(strip_fe0f(&[0x1f3f3, 0xfe0f, 0x200d, 0x1f308]), vec![0x1f3f3, 0x200d, 0x1f308]);
    assert_eq!(strip_fe0f(&[0xfe0f]), Vec::<u32>::new());
    assert_ne!(Fe0fHandling::RemoveFe0f, Fe0fHandling::Default);
}

#[test]
fn descriptions_update() {
    let mut description: Option<String> = None;
    update_description(&mut description, Some("grinning face"));
    assert_eq!(description, Some("grinning face".to_string()));
    update_description(&mut description, Some("   "));
    assert_eq!(description, Some("grinning face".to_string()));
    update_description(&mut description, None);
    assert_eq!(description, Some("grinning face".to_string()));
    update_description(&mut description, Some("beaming face"));
    assert_eq!(description, Some("beaming face".to_string()));
    let mut empty: Option<String> = None;
    update_description(&mut empty, None);
    assert_eq!(empty, None);
}

#[test]
fn flags_from_codes() {
    let germany = Emoji::from_flag("DE").unwrap();
    assert_eq!(germany.sequence, vec![0x1f1e9, 0x1f1ea]);
    assert_eq!(germany.get_flag_name(), Some("DE".to_string()));
    let nrw = Emoji::from_flag("de-nw.svg").unwrap();
    assert_eq!(nrw.sequence, vec![0x1f3f4, 0xe0064, 0xe0065, 0xe006e, 0xe0077, 0xe007f]);
    let salzburg = Emoji::from_flag("at-5.boo").unwrap();
    assert_eq!(salzburg.sequence, vec![0x1f3f4, 0xe0061, 0xe0074, 0xe0035, 0xe007f]);
    assert_eq!(salzburg.get_flag_name(), Some("AT-5".to_string()));
    assert_eq!(Emoji::from_flag(" eu ").unwrap().sequence, vec![0x1f1ea, 0x1f1fa]);
}

#[test]
fn invalid_flag_codes_are_refused() {
    for code in ["", "de-", "-nw", "d3", "de-nw-x", "de_nw", ".svg"] {
        assert!(matches!(Emoji::from_flag(code), Err(EmojiError::NoValidFlagSequence)), "{}", code);
    }
}

#[test]
fn display_text() {
    assert_eq!(Emoji::from(vec![0x1f914]).to_string(), "[1F914]");
    assert_eq!(Emoji::from(vec![0x1f3f3, 0xfe0f, 0x200d, 0x1f308]).to_string(), "[1F3F3-FE0F-200D-1F308]");
    assert_eq!(Emoji::from_flag("de-nw").unwrap().to_string(), "Flag DE-NW");
    assert_eq!(Emoji::from_flag("eu").unwrap().to_string(), "Flag EU");
    let mut party = Emoji::from(vec![0x1f973]);
    party.name = Some("Party face".to_string());
    assert_eq!(party.to_string(), "Party face");
}

#[test]
fn status_names() {
    assert_eq!(EmojiStatus::from_str(" Fully-Qualified "), Ok(EmojiStatus::FullyQualified));
    assert_eq!(EmojiStatus::from_str("component"), Ok(EmojiStatus::Component));
    assert_eq!(EmojiStatus::from_str("UNQUALIFIED"), Ok(EmojiStatus::Unqualified));
    assert_eq!(EmojiStatus::from_str("minimally-qualified"), Ok(EmojiStatus::MinimallyQualified));
    assert_eq!(EmojiStatus::from_str(" Other "), Err("other".to_string()));
    assert_eq!(EmojiStatus::FullyQualified.to_string(), "fully-qualified");
    assert_eq!(EmojiStatus::MinimallyQualified.to_string(), "minimally-qualified");
}

#[test]
fn kind_names() {
    assert_eq!(EmojiKind::from_str("Emoji_ZWJ_Sequence").ok(), Some(EmojiKind::EmojiZwjSequence));
    assert_eq!(EmojiKind::from_str("RGI_Emoji_Flag_Sequence").ok(), Some(EmojiKind::EmojiFlagSequence));
    assert_eq!(EmojiKind::from_str(" Basic_Emoji ").ok(), Some(EmojiKind::Emoji));
    assert_eq!(EmojiKind::from_str("Emoji_Modifier_Base").ok(), Some(EmojiKind::ModifierBase));
    assert_eq!(EmojiKind::from_str("Extended_Pictographic").ok(), Some(EmojiKind::ExtendedPictographic));
    let unknown = EmojiKind::from_str(":P");
    assert!(unknown.is_err());
    assert_eq!(unknown.err().unwrap().get(), EmojiKind::Other(":p".to_string()));
    let kinds = [
        EmojiKind::Emoji,
        EmojiKind::EmojiZwjSequence,
        EmojiKind::EmojiSequence,
        EmojiKind::EmojiPresentation,
        EmojiKind::ModifierBase,
        EmojiKind::EmojiComponent,
        EmojiKind::EmojiKeycapSequence,
        EmojiKind::EmojiFlagSequence,
        EmojiKind::EmojiModifierSequence,
        EmojiKind::ExtendedPictographic,
    ];
    for kind in kinds {
        assert_eq!(EmojiKind::from_str(&kind.to_string()).ok(), Some(kind));
    }
    assert_eq!(EmojiKind::Other("some kind".to_string()).to_string(), "some_kind");
    assert_eq!(EmojiKind::from(UnknownEmojiKind(EmojiKind::Emoji)), EmojiKind::Emoji);
}

#[test]
fn sequences_from_file_names() {
    assert_eq!(Emoji::from_sequence("emoji_u1f973.svg").unwrap().sequence, vec![0x1f973]);
    assert_eq!(Emoji::from_sequence("1f914.png").unwrap().sequence, vec![0x1f914]);
    assert_eq!(
        Emoji::from_sequence("emoji_u1f3f3_fe0f_200d_1f308.svg").unwrap().sequence,
        vec![0x1f3f3, 0xfe0f, 0x200d, 0x1f308]
    );
    assert_eq!(Emoji::from_sequence("123456789-a").unwrap().sequence, vec![0x23456789, 0xa]);
    assert_eq!(Emoji::from_sequence("0_1f600").unwrap().sequence, vec![0x1f600]);
    assert_eq!(Emoji::from_sequence("smile.svg").unwrap().sequence, vec![0xe]);
    assert!(matches!(Emoji::from_sequence("smiling.png"), Err(EmojiError::NoValidCodepointsFound(_))));
}
