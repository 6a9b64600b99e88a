use cosmic_toys::ipc::{parse_request, read_pick_reply, reply, Tool};
use cosmic_toys::picker::hex_color;

#[test]
fn requests_name_tools() {
    assert_eq!(parse_request("color_picker\n"), ("color_picker".to_string(), Some(Tool::ColorPicker)));
    assert_eq!(parse_request("  find_mouse \r\n"), ("find_mouse".to_string(), Some(Tool::FindMouse)));
    assert_eq!(parse_request("screen_ruler"), ("screen_ruler".to_string(), Some(Tool::ScreenRuler)));
    assert_eq!(parse_request("ocr\n"), ("ocr".to_string(), Some(Tool::Ocr)));
    assert_eq!(parse_request("p"), ("p".to_string(), None));
    assert_eq!(parse_request("\n"), (String::new(), None));
}

#[test]
fn replies_end_with_newline() {
    assert_eq!(reply(Some("#ABCDEF")), "#ABCDEF\n");
    assert_eq!(reply(None), "\n");
}

#[test]
fn client_reads_reply_back() {
    let hex = hex_color(1, 2, 3);
    assert_eq!(read_pick_reply(&reply(Some(&hex))), Some(hex.clone()));
    assert_eq!(read_pick_reply(&reply(None)), None);
    assert_eq!(read_pick_reply("  #010203 \n"), Some("#010203".to_string()));
    assert_eq!(read_pick_reply(""), None);
}
