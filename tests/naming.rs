use wallcolle::naming::{normalize_album_name, normalize_image_name, uppercase_first_letter};

#[test]
fn album_name_from_directory_name() {
    assert_eq!(normalize_album_name("my-cool-pack"), "My.cool.pack");
    assert_eq!(normalize_album_name("summer-vibes"), "Summer.vibes");
    assert_eq!(normalize_album_name("  Odd  Name!! "), "Odd.name");
    assert_eq!(normalize_album_name(""), "");
}

#[test]
fn image_name_from_title_and_username() {
    assert_eq!(
        normalize_image_name("My.cool.pack", "Blue Hour", "jdoe"),
        "My.cool.pack--jdoe--BlueHour"
    );
    assert_eq!(
        normalize_image_name("Summer.vibes", "blue hour", "jdoe"),
        "Summer.vibes--jdoe--BlueHour"
    );
    assert_eq!(normalize_image_name("P", "a-b c_d", "u"), "P--u--ABCD");
    assert_eq!(normalize_image_name("P", "!!!", "u"), "P--u--");
}

#[test]
fn uppercase_first_only() {
    assert_eq!(uppercase_first_letter("abc-def"), "Abc-def");
    assert_eq!(uppercase_first_letter(""), "");
    assert_eq!(uppercase_first_letter("9lives"), "9lives");
    assert_eq!(uppercase_first_letter("ßx"), "SSx");
}

#[test]
fn names_are_ascii_safe_for_non_ascii_input() {
    let album = normalize_album_name("Été -- Vibes!");
    assert_eq!(album, "Ete.vibes");
    let name = normalize_image_name(&album, "Æúű--cool?", "jdoe");
    assert_eq!(name, "Ete.vibes--jdoe--AeuuCool");
    let title_part = &name[album.len() + "jdoe".len() + 4..];
    assert!(title_part.chars().all(|c| c.is_ascii_alphanumeric()));
}
