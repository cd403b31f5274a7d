use cursinator::query::decode_name_version;

#[test]
fn test_pation() {
    assert_eq!(
        decode_name_version("foo").unwrap(),
        ("foo".to_owned(), None)
    );
    assert_eq!(
        decode_name_version("https://www.curseforge.com/minecraft/mc-mods/tinkers-construct/files").unwrap(),
        ("tinkers-construct".to_owned(), None)
    );
    assert_eq!(
        decode_name_version("tinker=5.0.0").unwrap(),
        ("tinker".to_owned(), Some("5.0.0".to_owned()))
    );
    assert_eq!(
        decode_name_version("tinker@5.0.0").unwrap(),
        ("tinker".to_owned(), Some("5.0.0".to_owned()))
    );
    assert_eq!(
        decode_name_version("tinker/5.0.0").unwrap(),
        ("tinker".to_owned(), Some("5.0.0".to_owned()))
    );
    assert_eq!(
        decode_name_version("https://www.curseforge.com/minecraft/mc-mods/tinkers-construct/files/all").unwrap(),
        ("tinkers-construct".to_owned(), None)
    );
    assert_eq!(
        decode_name_version("https://www.curseforge.com/minecraft/mc-mods/tinkers-construct/files/all?filter-game-version=2020709689%3A7498").unwrap(),
        ("tinkers-construct".to_owned(), None)
    );
    assert_eq!(
        decode_name_version("https://www.curseforge.com/minecraft/mc-mods/tinkers-construct/files/3998764").unwrap(),
        ("tinkers-construct".to_owned(), Some("3998764".to_owned()))
    );
    assert_eq!(
        decode_name_version("https://www.curseforge.com/minecraft/mc-mods/tinkers-construct/files/3998764/").unwrap(),
        ("tinkers-construct".to_owned(), Some("3998764".to_owned()))
    );
    assert_eq!(
        decode_name_version("https://www.curseforge.com/minecraft/mc-mods/tinkers-construct/download/3998764").unwrap(),
        ("tinkers-construct".to_owned(), Some("3998764".to_owned()))
    );
}

#[test]
fn decode_refuses_foreign_url() {
    assert!(decode_name_version("https://example.com/foo").is_err());
}
