use kros::vga_buffer::{
    Color, ColorCode, ScreenChar, Writer, BUFFER_HEIGHT, BUFFER_WIDTH, UNPRINTABLE,
};

fn row_text(writer: &Writer, row: usize) -> String {
    (0..BUFFER_WIDTH).map(|col| char::from(writer.read(row, col).ascii_character)).collect()
}

fn yellow() -> ColorCode {
    ColorCode::new(Color::Yellow, Color::Black)
}

#[test]
fn color_code_packs_background_and_foreground() {
    assert_eq!(ColorCode::new(Color::Yellow, Color::Black), ColorCode(0x0e));
    assert_eq!(ColorCode::new(Color::Black, Color::White), ColorCode(0xf0));
    assert_eq!(ColorCode::new(Color::LightGray, Color::Blue), ColorCode(0x17));
    assert_eq!(ColorCode::new(Color::White, Color::White), ColorCode(0xff));
    assert_eq!(ColorCode::new(Color::Black, Color::Black), ColorCode(0));
}

#[test]
fn colours_are_numbered_0_to_15() {
    let all = [
        Color::Black,
        Color::Blue,
        Color::Green,
        Color::Cyan,
        Color::Red,
        Color::Magenta,
        Color::Brown,
        Color::LightGray,
        Color::DackGray,
        Color::LightBlue,
        Color::LightGreen,
        Color::LightCyan,
        Color::LightRed,
        Color::Pink,
        Color::Yellow,
        Color::White,
    ];
    for (number, color) in all.iter().enumerate() {
        assert_eq!(usize::from(color.code()), number);
    }
}

#[test]
fn new_screen_is_blank() {
    let writer = Writer::new(yellow());
    assert_eq!((BUFFER_HEIGHT, BUFFER_WIDTH), (25, 80));
    for row in 0..BUFFER_HEIGHT {
        for col in 0..BUFFER_WIDTH {
            assert_eq!(
                writer.read(row, col),
                ScreenChar { ascii_character: b' ', color_code: yellow() }
            );
        }
    }
}

#[test]
fn bytes_go_to_the_bottom_row() {
    let mut writer = Writer::new(yellow());
    writer.write_byte(b'H');
    writer.write_byte(b'i');
    assert_eq!(
        writer.read(BUFFER_HEIGHT - 1, 0),
        ScreenChar { ascii_character: b'H', color_code: yellow() }
    );
    assert_eq!(writer.read(BUFFER_HEIGHT - 1, 1).ascii_character, b'i');
    assert_eq!(writer.read(BUFFER_HEIGHT - 1, 2).ascii_character, b' ');
    assert_eq!(row_text(&writer, BUFFER_HEIGHT - 2).trim(), "");
}

#[test]
fn test_println_simple() {
    let mut writer = Writer::new(yellow());
    writer.write_string("test_println_simple output\n");
    assert_eq!(row_text(&writer, BUFFER_HEIGHT - 2).trim_end(), "test_println_simple output");
    assert_eq!(row_text(&writer, BUFFER_HEIGHT - 1).trim_end(), "");
}

#[test]
fn test_println_many() {
    let mut writer = Writer::new(yellow());
    for _ in 0..200 {
        writer.write_string("test_println_many output\n");
    }
    for row in 0..BUFFER_HEIGHT - 1 {
        assert_eq!(row_text(&writer, row).trim_end(), "test_println_many output");
    }
    assert_eq!(row_text(&writer, BUFFER_HEIGHT - 1).trim_end(), "");
}

#[test]
fn test_println_output() {
    let s = "Some test string that fits on a single line";
    let mut writer = Writer::new(yellow());
    writer.write_string("\n");
    writer.write_string(s);
    writer.write_string("\n");
    for (i, c) in s.chars().enumerate() {
        let screen_char = writer.read(BUFFER_HEIGHT - 2, i);
        assert_eq!(char::from(screen_char.ascii_character), c);
    }
}

#[test]
fn line_feed_moves_the_rows_up() {
    let mut writer = Writer::new(yellow());
    writer.write_string("first\nsecond\nthird");
    assert_eq!(row_text(&writer, BUFFER_HEIGHT - 3).trim_end(), "first");
    assert_eq!(row_text(&writer, BUFFER_HEIGHT - 2).trim_end(), "second");
    assert_eq!(row_text(&writer, BUFFER_HEIGHT - 1).trim_end(), "third");
    writer.write_byte(b'\n');
    assert_eq!(row_text(&writer, BUFFER_HEIGHT - 4).trim_end(), "first");
    assert_eq!(row_text(&writer, BUFFER_HEIGHT - 1).trim_end(), "");
}

#[test]
fn full_row_wraps_to_a_new_line() {
    let mut writer = Writer::new(yellow());
    let long: String = (0..85).map(|i| char::from(b'a' + (i % 26) as u8)).collect();
    writer.write_string(&long);
    assert_eq!(row_text(&writer, BUFFER_HEIGHT - 2), long[..80]);
    assert_eq!(row_text(&writer, BUFFER_HEIGHT - 1).trim_end(), &long[80..]);
    // a row that is just full wraps only with the next byte
    let mut writer = Writer::new(yellow());
    writer.write_string(&long[..80]);
    assert_eq!(row_text(&writer, BUFFER_HEIGHT - 1), long[..80]);
    writer.write_byte(b'!');
    assert_eq!(row_text(&writer, BUFFER_HEIGHT - 2), long[..80]);
    assert_eq!(row_text(&writer, BUFFER_HEIGHT - 1).trim_end(), "!");
}

#[test]
fn top_row_scrolls_off_the_screen() {
    let mut writer = Writer::new(yellow());
    for line in 0..30 {
        writer.write_string(&format!("line {line}\n"));
    }
    assert_eq!(row_text(&writer, 0).trim_end(), "line 6");
    assert_eq!(row_text(&writer, BUFFER_HEIGHT - 2).trim_end(), "line 29");
}

#[test]
fn unprintable_bytes_are_shown_as_a_box() {
    let mut writer = Writer::new(yellow());
    writer.write_string("a\tb\u{7f}c~ ö");
    let row = BUFFER_HEIGHT - 1;
    let shown: Vec<u8> = (0..9).map(|col| writer.read(row, col).ascii_character).collect();
    assert_eq!(
        shown,
        vec![b'a', UNPRINTABLE, b'b', UNPRINTABLE, b'c', b'~', b' ', UNPRINTABLE, UNPRINTABLE]
    );
    assert_eq!(UNPRINTABLE, 0xfe);
    // write_byte itself shows what it is given
    writer.write_byte(0x01);
    assert_eq!(writer.read(row, 9).ascii_character, 0x01);
}
