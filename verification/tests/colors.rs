//! Colours on the terminal. The switch for colours belongs to the whole process, so one
//! test turns it both ways.
use crossterm::style::force_color_output;
use music_player::style::{encode, Color, Frame};

fn colored(color: Color) -> String {
    let mut frame = Frame::new();
    frame.color(color);
    encode(&frame)
}

#[test]
fn colours_are_written_as_escape_sequences() {
    force_color_output(true);
    assert_eq!(colored(Color::DarkGrey), "\x1b[38;5;8m");
    assert_eq!(colored(Color::Red), "\x1b[38;5;9m");
    assert_eq!(colored(Color::Green), "\x1b[38;5;10m");
    assert_eq!(colored(Color::Yellow), "\x1b[38;5;11m");
    assert_eq!(colored(Color::Cyan), "\x1b[38;5;14m");
    assert_eq!(colored(Color::White), "\x1b[38;5;15m");
    assert_eq!(colored(Color::Rgb { r: 0, g: 45, b: 255 }), "\x1b[38;2;0;45;255m");

    let mut frame = Frame::new();
    frame.text("a");
    frame.background(40, 44, 52);
    frame.color(Color::Green);
    frame.text("b\r\n");
    frame.reset();
    assert_eq!(encode(&frame), "a\x1b[48;2;40;44;52m\x1b[38;5;10mb\r\n\x1b[0m");
    assert_eq!(encode(&Frame::new()), "");

    force_color_output(false);
    assert_eq!(encode(&frame), "a\x1b[m\x1b[mb\r\n\x1b[0m");
    force_color_output(true);
}
