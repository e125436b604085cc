use waddle::native_clipboard::Action;
use waddle::native_dnd::{
    action_from_dnd, badge_label, badge_width, check_drag_paths, dnd_action, dropped_paths,
    dropped_uris, icon_body, preferred_action, rgb, uri_list_payload, DndActions,
    MAX_URI_LIST_BYTES,
};

const COPY: DndActions = DndActions { copy: true, moves: false, ask: false };
const MOVE: DndActions = DndActions { copy: false, moves: true, ask: false };
const COPY_OR_MOVE: DndActions = DndActions { copy: true, moves: true, ask: false };
const NONE: DndActions = DndActions { copy: false, moves: false, ask: false };

fn resolved(uri: &str, path: Option<&str>) -> (String, Option<String>) {
    (uri.to_owned(), path.map(str::to_owned))
}


#[test]
fn badge_width_grows_with_digits_within_bounds() {
    assert_eq!(badge_width(2, false), 21);
    assert_eq!(badge_width(3, true), 29);
    assert_eq!(badge_width(123, false), 35);
    assert_eq!(badge_width(1, false), 21);
    assert_eq!(badge_width(123456, true), 60);
    assert_eq!(badge_width(usize::MAX, false), 60);
}

#[test]
fn colours_are_written_as_lowercase_hex() {
    assert_eq!(rgb([0xd2, 0xd2, 0xd2, 0xff]), "#d2d2d2");
    assert_eq!(rgb([0, 9, 255, 0]), "#0009ff");
}

#[test]
fn uri_list_uses_crlf_and_escapes_paths() {
    let payload =
        uri_list_payload(&["file:///tmp/a%20file.txt".to_owned(), "file:///tmp/second.txt".to_owned()]);
    assert_eq!(payload, "file:///tmp/a%20file.txt\r\nfile:///tmp/second.txt\r\n");
    assert_eq!(uri_list_payload(&[]), "");
}

#[test]
fn uri_list_rejects_relative_paths() {
    assert!(check_drag_paths(&["relative".to_owned()]).is_err());
    assert_eq!(
        check_drag_paths(&["/tmp/a".to_owned(), "b".to_owned(), "c".to_owned()]),
        Err("cannot drag a relative path: b".to_owned())
    );
    assert_eq!(check_drag_paths(&["/tmp/a".to_owned()]), Ok(()));
}

#[test]
fn parses_uri_lists_with_comments_crlf_and_escaped_names() {
    let uris = dropped_uris(
        b"# generated by source\r\nfile:///tmp/a%20file.txt\r\n\nfile:///tmp/b.txt\n",
    )
    .expect("parsed URI list");
    assert_eq!(uris, ["file:///tmp/a%20file.txt", "file:///tmp/b.txt"]);
    let paths = dropped_paths(&[
        resolved(&uris[0], Some("/tmp/a file.txt")),
        resolved(&uris[1], Some("/tmp/b.txt")),
    ])
    .expect("local paths");
    assert_eq!(paths, ["/tmp/a file.txt", "/tmp/b.txt"]);
}

#[test]
fn parser_rejects_non_file_empty_and_oversize_payloads() {
    let uris = dropped_uris(b"https://example.com/file").expect("one URI");
    assert_eq!(uris, ["https://example.com/file"]);
    assert_eq!(
        dropped_paths(&[resolved(&uris[0], None)]),
        Err("unsupported dropped URI: https://example.com/file".to_owned())
    );
    let uris = dropped_uris(b"# only a comment\n").expect("no URI");
    assert!(uris.is_empty());
    assert!(dropped_paths(&[]).is_err());
    assert_eq!(
        dropped_uris(&vec![b'x'; MAX_URI_LIST_BYTES + 1]),
        Err("the dropped URI list is larger than 4 MiB".to_owned())
    );
}

#[test]
fn dropped_paths_count_repeats_once_and_refuse_relative_local_paths() {
    let paths = dropped_paths(&[
        resolved("file:///a", Some("/a")),
        resolved("file:///b", Some("/b")),
        resolved("file:///a", Some("/a")),
    ]);
    assert_eq!(paths, Ok(vec!["/a".to_owned(), "/b".to_owned()]));
    assert_eq!(
        dropped_paths(&[resolved("file:///a", Some("/a")), resolved("file:x", Some("x")), resolved("y", None)]),
        Err("unsupported dropped URI: file:x".to_owned())
    );
    assert_eq!(dropped_paths(&[]), Err("the drop did not contain any local file paths".to_owned()));
}

#[test]
fn non_utf8_uri_lists_are_refused_with_the_decoder_message() {
    let error = dropped_uris(&[b'f', 0xff, b'\n']).unwrap_err();
    assert!(error.starts_with("the dropped URI list is not UTF-8: "));
    assert!(error.len() > "the dropped URI list is not UTF-8: ".len());
    assert_eq!(dropped_uris(b"  file:///x  \r\n\r\n"), Ok(vec!["file:///x".to_owned()]));
    assert_eq!(dropped_uris(b""), Ok(vec![]));
}

#[test]
fn private_offers_prefer_move_but_copy_only_is_respected() {
    assert_eq!(preferred_action(true, COPY_OR_MOVE), Action::Move);
    assert_eq!(preferred_action(true, COPY), Action::Copy);
    assert_eq!(preferred_action(false, MOVE), Action::Copy);
    assert_eq!(preferred_action(true, NONE), Action::Move);
}

#[test]
fn selected_drop_actions_prefer_move_and_fall_back() {
    assert_eq!(action_from_dnd(COPY_OR_MOVE, Action::Copy), Action::Move);
    assert_eq!(action_from_dnd(COPY, Action::Move), Action::Copy);
    assert_eq!(action_from_dnd(NONE, Action::Move), Action::Move);
    assert_eq!(dnd_action(Action::Copy), COPY);
    assert_eq!(dnd_action(Action::Move), MOVE);
}

#[test]
fn a_written_uri_list_reads_back_the_same_uris() {
    let uris = vec!["file:///tmp/a%20b".to_owned(), "file:///home/x".to_owned(), "file:///tmp/a%20b".to_owned()];
    let payload = uri_list_payload(&uris);
    assert_eq!(dropped_uris(payload.as_bytes()), Ok(uris));
}

#[test]
fn badge_labels_follow_the_count_and_the_copy_marker() {
    assert_eq!(badge_label(1, false), None);
    assert_eq!(badge_label(1, true), Some(("+".to_owned(), 20)));
    assert_eq!(badge_label(3, false), Some(("3".to_owned(), 21)));
    assert_eq!(badge_label(12, true), Some(("12 +".to_owned(), 36)));
    assert_eq!(badge_label(0, false), Some(("0".to_owned(), 21)));
}

#[test]
fn icon_body_is_the_drawing_painted_in_the_icon_colour() {
    let icon = b"<svg viewBox=\"0 0 16 16\"><path fill=\"#000\" d=\"M0\"/><g fill=\"#0000\"/></svg>\n";
    assert_eq!(
        icon_body(icon, [0x12, 0xab, 0xff, 0xff]),
        Ok("<path fill=\"#12abff\" d=\"M0\"/><g fill=\"#12abff0\"/>".to_owned())
    );
    assert_eq!(
        icon_body(b"<svg><g/></svg><svg/></svg>", [0, 0, 0, 255]),
        Ok("<g/></svg><svg/>".to_owned())
    );
    assert_eq!(icon_body(b"no tag here", [0, 0, 0, 255]), Err("invalid drag preview icon".to_owned()));
    assert_eq!(icon_body(b"<svg><g/>", [0, 0, 0, 255]), Err("invalid drag preview icon".to_owned()));
    let invalid = icon_body(b"<svg>\xff</svg>", [0, 0, 0, 255]).unwrap_err();
    assert!(invalid.starts_with("invalid drag preview icon: "));
    assert!(invalid.contains("invalid utf-8"));
}
