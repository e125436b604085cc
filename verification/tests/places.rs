use waddle::places::{
    config_path, parse_usize, parse_volume_action, Favorite, FavoriteChange, Places, VolumeAction,
};

fn saved(change: FavoriteChange) -> (Vec<Favorite>, String) {
    match change {
        FavoriteChange::Save { favorites, message } => (favorites, message),
        FavoriteChange::Unchanged(text) => panic!("expected a change, got {text}"),
    }
}

fn answer(change: FavoriteChange) -> String {
    match change {
        FavoriteChange::Unchanged(text) => text,
        FavoriteChange::Save { message, .. } => panic!("expected no change, got {message}"),
    }
}

#[test]
fn volume_commands_require_a_known_action_and_name() {
    assert_eq!(
        parse_volume_action("unmount Backup Drive").unwrap(),
        (VolumeAction::Unmount, "Backup Drive".to_owned())
    );
    assert!(parse_volume_action("format disk").is_err());
    assert!(parse_volume_action("mount").is_err());
}

#[test]
fn volume_errors_name_the_problem() {
    assert_eq!(
        parse_volume_action("format disk").unwrap_err(),
        "unknown volume action: format"
    );
    assert_eq!(
        parse_volume_action("  mount  ").unwrap_err(),
        "expected :volume mount|unmount|eject NAME"
    );
    assert_eq!(
        parse_volume_action("eject   Stick ").unwrap(),
        (VolumeAction::Eject, "Stick".to_owned())
    );
}

#[test]
fn favorites_are_added_listed_removed_and_reordered() {
    let mut places = Places::empty_at("/config/favorites.json".to_owned());
    assert_eq!(
        answer(places.command("/work", "list").unwrap()),
        "No Favorites. Use :favorite add [LABEL] in a folder."
    );

    let (favorites, message) = saved(places.command("/work/one", "add First label").unwrap());
    assert_eq!(message, "Added Favorite: First label");
    places.apply(favorites);

    let (favorites, message) = saved(places.command("/work/two", "add").unwrap());
    assert_eq!(message, "Added Favorite: two");
    places.apply(favorites);

    assert_eq!(
        places.command("/work/two", "add again").unwrap_err(),
        "the current folder is already a Favorite"
    );
    assert_eq!(
        answer(places.command("/work", "").unwrap()),
        "1. First label  /work/one\n2. two  /work/two"
    );

    let moved = places.reorder(1, 0).unwrap();
    assert_eq!(moved[0].label, "two");
    assert_eq!(moved[1].path, "/work/one");
    assert!(places.reorder(0, 0).is_none());
    assert!(places.reorder(0, 5).is_none());

    let (favorites, message) = saved(places.command("/work", "remove +1").unwrap());
    assert_eq!(message, "Removed Favorite: First label");
    places.apply(favorites);
    assert_eq!(places.favorites().len(), 1);
}

#[test]
fn favorite_command_errors() {
    let places = Places::empty_at("/config/favorites.json".to_owned());
    assert_eq!(
        places.command("/work", "remove").unwrap_err(),
        "expected :favorite remove INDEX"
    );
    assert_eq!(
        places.command("/work", "remove one").unwrap_err(),
        "Favorite index must be a number"
    );
    assert_eq!(
        places.command("/work", "remove 1").unwrap_err(),
        "Favorite index is out of range"
    );
    assert_eq!(
        places.command("/work", "rename x").unwrap_err(),
        "unknown favorite command: rename"
    );
    let (favorites, message) = saved(places.command("/", "add").unwrap());
    assert_eq!(message, "Added Favorite: /");
    assert_eq!(favorites[0].path, "/");
}

#[test]
fn numbers_parse_like_usize_from_str() {
    let parse = |s: &str| parse_usize(&s.chars().collect::<Vec<_>>());
    assert_eq!(parse("42"), Some(42));
    assert_eq!(parse("+7"), Some(7));
    assert_eq!(parse("007"), Some(7));
    assert_eq!(parse(""), None);
    assert_eq!(parse("+"), None);
    assert_eq!(parse("-1"), None);
    assert_eq!(parse("1x"), None);
    assert_eq!(parse(&usize::MAX.to_string()), Some(usize::MAX));
    assert_eq!(parse("99999999999999999999999"), None);
}

#[test]
fn the_favorites_file_follows_the_config_folder() {
    assert_eq!(config_path(Some("/cfg/"), Some("/home/me")), "/cfg/waddle/favorites.json");
    assert_eq!(config_path(None, Some("/home/me")), "/home/me/.config/waddle/favorites.json");
    assert_eq!(config_path(None, None), ".waddle-favorites.json");
}
