use sos2::arch::port::PortWrite;
use sos2::driver::keyboard::{get_extend_keycode, scancode_std, KeyCode, KeyEvent, KeyPacket,
    Keyboard, KeyboardCtrlCommand, KeyboardEncoderCommand, PollStep, KB_ALT_DOWN, KB_CAPS_LOCK,
    KB_CTRL_DOWN, KB_NUM_LOCK, KB_PRESS, KB_RELEASE, KB_SHIFT_DOWN};
use sos2::driver::serial::{Serial, SERIAL_PORT};
use sos2::driver::video::framebuffer::{Font, Framebuffer, Point, Rgba};
use sos2::driver::video::terminal::colormap;

fn byte(port: u16, value: u8) -> PortWrite {
    PortWrite { port, value: value as u32, width: 1 }
}

const INK: Rgba = Rgba(0x00ff_ffff);
const PAPER: Rgba = Rgba(0);

/// The points of the buffer that hold the colour, as (x, y), row by row.
fn inked(fb: &Framebuffer, colour: Rgba) -> Vec<(i32, i32)> {
    let mut v = Vec::new();
    for y in 0..fb.height {
        for x in 0..fb.width {
            if fb.buf[(y * fb.width + x) as usize] == colour {
                v.push((x, y));
            }
        }
    }
    v
}

#[test]
fn serial_line() {
    let mut s = Serial::new(SERIAL_PORT);
    assert_eq!(s.init(), vec![
        byte(0x3f9, 0x00),
        byte(0x3fb, 0x80),
        byte(0x3f8, 0x03),
        byte(0x3f9, 0x00),
        byte(0x3fb, 0x03),
        byte(0x3fa, 0xC7),
        byte(0x3fc, 0x0B),
    ]);
    assert_eq!(s.status_port(), 0x3fd);
    assert!(s.is_transmit_empty(0x20));
    assert!(s.is_transmit_empty(0x61));
    assert!(!s.is_transmit_empty(0x01));
    assert!(s.serial_received(0x01));
    assert!(!s.serial_received(0x20));
    assert_eq!(s.write(b'A'), byte(0x3f8, 0x41));
}

#[test]
fn make_codes() {
    assert_eq!(scancode_std(0), KeyCode::KEY_UNKNOWN);
    assert_eq!(scancode_std(1), KeyCode::KEY_ESCAPE);
    assert_eq!(scancode_std(2), KeyCode::KEY_1);
    assert_eq!(scancode_std(0x10), KeyCode::KEY_Q);
    assert_eq!(scancode_std(0x1c), KeyCode::KEY_RETURN);
    assert_eq!(scancode_std(0x1e), KeyCode::KEY_A);
    assert_eq!(scancode_std(0x2a), KeyCode::KEY_LSHIFT);
    assert_eq!(scancode_std(0x39), KeyCode::KEY_SPACE);
    assert_eq!(scancode_std(89), KeyCode::KEY_UNKNOWN);
    assert_eq!(scancode_std(255), KeyCode::KEY_UNKNOWN);
    assert_eq!(get_extend_keycode(0x47), KeyCode::KEY_HOME);
    assert_eq!(get_extend_keycode(0xc7), KeyCode::KEY_HOME);
    assert_eq!(get_extend_keycode(0x1c), KeyCode::KEY_KP_ENTER);
    assert_eq!(get_extend_keycode(0x1d), KeyCode::KEY_RCTRL);
    assert_eq!(get_extend_keycode(0x38), KeyCode::KEY_RALT);
    assert_eq!(get_extend_keycode(0x10), KeyCode::KEY_UNKNOWN);
}

#[test]
fn key_codes() {
    assert_eq!(KeyCode::KEY_A.code(), b'a' as u16);
    assert_eq!(KeyCode::KEY_SPACE.code(), b' ' as u16);
    assert_eq!(KeyCode::KEY_RETURN.code(), 13);
    assert_eq!(KeyCode::KEY_HOME.code(), 0x400c);
    assert!(KeyCode::KEY_A.printable());
    assert!(KeyCode::KEY_TILDE.printable());
    assert!(!KeyCode::KEY_HOME.printable());
    assert!(!KeyCode::KEY_LSHIFT.printable());
    assert_eq!(KeyCode::KEY_1.shifted(), KeyCode::KEY_EXCLAMATION);
    assert_eq!(KeyCode::KEY_SLASH.shifted(), KeyCode::KEY_QUESTION);
    assert_eq!(KeyCode::KEY_A.shifted(), KeyCode::KEY_A);
}

#[test]
fn a_key_goes_down_and_up() {
    let mut kb = Keyboard::new();
    let down = kb.keyboard_irq(0x10);
    assert_eq!(down, KeyEvent {
        packet: Some(KeyPacket { keycode: KeyCode::KEY_Q, status: KB_PRESS }),
        print: Some(b'q'),
    });
    let up = kb.keyboard_irq(0x90);
    assert_eq!(up, KeyEvent {
        packet: Some(KeyPacket { keycode: KeyCode::KEY_Q, status: KB_RELEASE }),
        print: None,
    });
    // a key that prints nothing
    let esc = kb.keyboard_irq(0x01);
    assert_eq!(esc.packet.unwrap().keycode, KeyCode::KEY_ESCAPE);
    assert_eq!(esc.print, None);
    assert_eq!(kb.status, None);
}

#[test]
fn extended_keys_come_after_a_prefix() {
    let mut kb = Keyboard::new();
    assert_eq!(kb.keyboard_irq(0xE0), KeyEvent { packet: None, print: None });
    assert!(kb.extended);
    let home = kb.keyboard_irq(0x47);
    assert_eq!(home.packet, Some(KeyPacket { keycode: KeyCode::KEY_HOME, status: KB_PRESS }));
    assert_eq!(home.print, None);
    assert!(!kb.extended);
    kb.keyboard_irq(0xE0);
    let enter = kb.keyboard_irq(0x1c);
    assert_eq!(enter.packet.unwrap().keycode, KeyCode::KEY_KP_ENTER);
    assert_eq!(enter.print, None);
    // without the prefix the same byte is another key
    let plain = kb.keyboard_irq(0x1c);
    assert_eq!(plain.packet.unwrap().keycode, KeyCode::KEY_RETURN);
    assert_eq!(plain.print, Some(13));
}

#[test]
fn shift_changes_the_key() {
    let mut kb = Keyboard::new();
    // the flags are kept once a lock is on
    kb.set_leds(false, true, false);
    assert_eq!(kb.status, Some(KB_NUM_LOCK));
    let shift = kb.keyboard_irq(0x2a);
    assert_eq!(shift.packet, Some(KeyPacket {
        keycode: KeyCode::KEY_LSHIFT,
        status: KB_PRESS | KB_NUM_LOCK | KB_SHIFT_DOWN,
    }));
    assert!(kb.shift_down());
    let one = kb.keyboard_irq(0x02);
    assert_eq!(one.packet.unwrap().keycode, KeyCode::KEY_EXCLAMATION);
    assert_eq!(one.print, Some(b'!'));
    kb.keyboard_irq(0xaa);
    assert!(!kb.shift_down());
    let one = kb.keyboard_irq(0x02);
    assert_eq!(one.packet.unwrap().keycode, KeyCode::KEY_1);
    assert_eq!(one.print, Some(b'1'));
    assert_eq!(kb.status, Some(KB_NUM_LOCK));
}

#[test]
fn control_and_alt_are_noted() {
    let mut kb = Keyboard::new();
    kb.set_leds(false, false, true);
    kb.keyboard_irq(0x1d);
    assert!(kb.ctrl_down());
    assert!(!kb.alt_down());
    kb.keyboard_irq(0x38);
    assert!(kb.alt_down());
    assert_eq!(kb.status, Some(KB_CAPS_LOCK | KB_CTRL_DOWN | KB_ALT_DOWN));
    kb.keyboard_irq(0x9d);
    assert!(!kb.ctrl_down());
    kb.set_alt_down(false);
    assert!(!kb.alt_down());
    kb.set_shift_down(true);
    kb.set_ctrl_down(true);
    assert_eq!(kb.status, Some(KB_CAPS_LOCK | KB_CTRL_DOWN | KB_SHIFT_DOWN));
    // while no lock is on, no flag is kept
    let mut kb = Keyboard::new();
    kb.set_shift_down(true);
    assert_eq!(kb.status, None);
    assert!(!kb.shift_down());
}

#[test]
fn the_keyboard_is_set_up() {
    let mut kb = Keyboard::new();
    assert_eq!(kb.init(), vec![
        byte(0x60, 0xF4),
        byte(0x64, 0x60),
        byte(0x60, 0x47),
        byte(0x60, 0xED),
        byte(0x60, 0),
    ]);
    assert_eq!(kb.status, None);
    assert_eq!(kb.set_leds(true, false, true), vec![byte(0x60, 0xED), byte(0x60, 5)]);
    assert_eq!(kb.set_leds(false, true, false), vec![byte(0x60, 0xED), byte(0x60, 7)]);
    assert_eq!(kb.kbe_send(KeyboardEncoderCommand::ENABLE.value()), byte(0x60, 0xF4));
    assert_eq!(kb.kbc_send(KeyboardCtrlCommand::MOUSE_WRITE.value()), byte(0x64, 0xD4));
    assert_eq!(kb.check_reply(0xFA), 0);
    assert_eq!(kb.check_reply(0xFE), 1);
    assert_eq!(kb.check_reply(0x00), 2);
}

#[test]
fn waiting_for_the_controller() {
    let kb = Keyboard::new();
    assert!(kb.can_read(0x01));
    assert!(!kb.can_read(0x02));
    assert!(kb.can_write(0x02));
    assert!(!kb.can_write(0x01));
    assert_eq!(kb.poll_aux_status(0x00, 0), PollStep::Done(true));
    assert_eq!(kb.poll_aux_status(0x01, 0), PollStep::Drain);
    assert_eq!(kb.poll_aux_status(0x03, 5), PollStep::Drain);
    assert_eq!(kb.poll_aux_status(0x02, 59), PollStep::Again);
    assert_eq!(kb.poll_aux_status(0x02, 60), PollStep::Done(false));
    assert_eq!(kb.poll_aux_status(0x00, 60), PollStep::Done(false));
}

#[test]
fn colours() {
    let c = Rgba::from(0x12, 0x34, 0x56);
    assert_eq!(c, Rgba(0x0012_3456));
    assert_eq!((c.a(), c.r(), c.g(), c.b()), (0, 0x12, 0x34, 0x56));
    let d = Rgba::new(0xff80_4020);
    assert_eq!((d.a(), d.r(), d.g(), d.b()), (0xff, 0x80, 0x40, 0x20));
    assert_eq!(colormap(0), Rgba(0));
    assert_eq!(colormap(4), Rgba(0xff0000));
    assert_eq!(colormap(15), Rgba(0xffffff));
    assert_eq!(colormap(16 + 1), Rgba(0x0000ff));
}

#[test]
fn pixels() {
    let mut fb = Framebuffer::new(4, 3, 16);
    assert_eq!(fb.buf, vec![PAPER; 12]);
    fb.draw_pixel(Point { x: 1, y: 2 }, INK);
    assert_eq!(inked(&fb, INK), vec![(1, 2)]);
    // nothing is written outside the buffer
    fb.draw_pixel(Point { x: 0, y: 3 }, INK);
    fb.draw_pixel(Point { x: -1, y: 0 }, INK);
    fb.draw_pixel(Point { x: 0, y: -1 }, INK);
    fb.draw_pixel(Point { x: 100, y: 100 }, INK);
    assert_eq!(inked(&fb, INK), vec![(1, 2)]);
    assert_eq!((fb.width, fb.height, fb.pitch), (4, 3, 16));
}

#[test]
fn lines() {
    let mut fb = Framebuffer::new(6, 6, 24);
    fb.draw_line(Point { x: 0, y: 0 }, Point { x: 4, y: 2 }, INK);
    assert_eq!(inked(&fb, INK), vec![(0, 0), (1, 1), (2, 1), (3, 2), (4, 2)]);
    // the same line from its other end
    let mut back = Framebuffer::new(6, 6, 24);
    back.draw_line(Point { x: 4, y: 2 }, Point { x: 0, y: 0 }, INK);
    assert_eq!(back.buf, fb.buf);
    let mut fb = Framebuffer::new(6, 6, 24);
    fb.draw_line(Point { x: 1, y: 5 }, Point { x: 1, y: 2 }, INK);
    assert_eq!(inked(&fb, INK), vec![(1, 2), (1, 3), (1, 4), (1, 5)]);
    let mut fb = Framebuffer::new(6, 6, 24);
    fb.draw_line(Point { x: 0, y: 3 }, Point { x: 3, y: 0 }, INK);
    assert_eq!(inked(&fb, INK), vec![(3, 0), (2, 1), (1, 2), (0, 3)]);
    let mut fb = Framebuffer::new(6, 6, 24);
    fb.draw_line(Point { x: 2, y: 2 }, Point { x: 2, y: 2 }, INK);
    assert_eq!(inked(&fb, INK), vec![(2, 2)]);
}

#[test]
fn rectangles() {
    let mut fb = Framebuffer::new(5, 4, 20);
    fb.fill_rect(Point { x: 1, y: 1 }, 2, 2, INK);
    assert_eq!(inked(&fb, INK), vec![(1, 1), (2, 1), (1, 2), (2, 2)]);
    // cut off at the right and at the bottom
    let mut fb = Framebuffer::new(5, 4, 20);
    fb.fill_rect(Point { x: 3, y: 2 }, 10, 10, INK);
    assert_eq!(inked(&fb, INK), vec![(3, 2), (4, 2), (3, 3), (4, 3)]);
    let mut fb = Framebuffer::new(5, 4, 20);
    fb.fill_rect(Point { x: 0, y: 0 }, 0, 3, INK);
    assert_eq!(inked(&fb, INK), vec![]);
    let mut fb = Framebuffer::new(5, 5, 20);
    fb.draw_rect(Point { x: 1, y: 1 }, 3, 3, INK);
    assert_eq!(inked(&fb, INK), vec![(1, 1), (2, 1), (3, 1), (1, 2), (3, 2), (1, 3), (2, 3), (3, 3)]);
}

#[test]
fn circles() {
    let mut fb = Framebuffer::new(5, 5, 20);
    fb.draw_circle(Point { x: 2, y: 2 }, 1, INK);
    assert_eq!(inked(&fb, INK), vec![(2, 1), (1, 2), (3, 2), (2, 3)]);
    let mut fb = Framebuffer::new(7, 7, 28);
    fb.draw_circle(Point { x: 3, y: 3 }, 3, INK);
    let ring = inked(&fb, INK);
    // the four ends of the axes, and the same in each quadrant
    for p in [(0, 3), (6, 3), (3, 0), (3, 6)] {
        assert!(ring.contains(&p));
    }
    for (x, y) in ring.iter() {
        assert!(ring.contains(&(6 - x, *y)));
        assert!(ring.contains(&(*x, 6 - y)));
        assert!(ring.contains(&(*y, *x)));
        let d = (x - 3) * (x - 3) + (y - 3) * (y - 3);
        assert!(5 <= d && d <= 13);
    }
    assert!(!ring.contains(&(3, 3)));
}

#[test]
fn glyphs() {
    let mut star = vec![b' '; 128];
    star[0] = b'*';
    star[9] = b'*';
    star[127] = b'*';
    let font = Font { glyphs: vec![vec![b' '; 128], star], xadvance: 8, yadvance: 16 };
    let mut fb = Framebuffer::new(10, 18, 40);
    fb.fill_rect(Point { x: 0, y: 0 }, 10, 18, Rgba(7));
    fb.draw_char(&font, Point { x: 2, y: 1 }, 2, INK, PAPER);
    assert_eq!(inked(&fb, INK), vec![(2, 1), (3, 2), (9, 16)]);
    // the rest of the glyph's cell has the background, and nothing else changed
    assert_eq!(inked(&fb, PAPER).len(), 128 - 3);
    assert_eq!(inked(&fb, Rgba(7)).len(), 180 - 128);
    // a character without a glyph draws nothing
    let before = fb.buf.clone();
    fb.draw_char(&font, Point { x: 0, y: 0 }, 3, INK, PAPER);
    fb.draw_char(&font, Point { x: 0, y: 0 }, 0, INK, PAPER);
    assert_eq!(fb.buf, before);
}

#[test]
fn colours_on_the_way() {
    let black = Rgba::from(0, 0, 0);
    let to = Rgba::from(100, 50, 200);
    assert_eq!(Framebuffer::interpolate_color(0, black, to, 4), black);
    assert_eq!(Framebuffer::interpolate_color(1, black, to, 4), Rgba::from(25, 12, 50));
    assert_eq!(Framebuffer::interpolate_color(3, black, to, 4), Rgba::from(75, 37, 150));
    // downwards, and without the alpha of the first colour
    assert_eq!(Framebuffer::interpolate_color(1, Rgba(0xff00_00c8), Rgba(0x64), 4), Rgba::from(0, 0, 175));
}

#[test]
fn gradients() {
    let mut fb = Framebuffer::new(4, 5, 16);
    fb.fill_rect_grad(Point { x: 1, y: 1 }, 2, 10, Rgba::from(0, 0, 0xff), Rgba::from(40, 80, 0xff));
    let at = |x: i32, y: i32| fb.buf[(y * 4 + x) as usize];
    // four rows are left of the ten: the first two have the first colour
    assert_eq!(at(1, 1), Rgba::from(0, 0, 0xff));
    assert_eq!(at(2, 2), Rgba::from(0, 0, 0xff));
    assert_eq!(at(1, 3), Rgba::from(10, 20, 0xff));
    assert_eq!(at(2, 4), Rgba::from(20, 40, 0xff));
    for y in 0..5 {
        assert_eq!(at(0, y), PAPER);
        assert_eq!(at(3, y), PAPER);
    }
    assert_eq!(at(1, 0), PAPER);
}

#[test]
fn copies_within_the_buffer() {
    let numbered = || {
        let mut fb = Framebuffer::new(4, 4, 16);
        for k in 0..16 {
            fb.buf[k] = Rgba(k as u32);
        }
        fb
    };
    let values = |fb: &Framebuffer| fb.buf.iter().map(|p| p.0).collect::<Vec<u32>>();
    let mut fb = numbered();
    fb.blit_copy(Point { x: 1, y: 1 }, Point { x: 0, y: 0 }, 2, 2);
    assert_eq!(values(&fb), vec![0, 1, 2, 3, 4, 0, 1, 7, 8, 4, 5, 11, 12, 13, 14, 15]);
    // down by a row, over itself
    let mut fb = numbered();
    fb.blit_copy(Point { x: 0, y: 1 }, Point { x: 0, y: 0 }, 4, 3);
    assert_eq!(values(&fb), vec![0, 1, 2, 3, 0, 1, 2, 3, 4, 5, 6, 7, 8, 9, 10, 11]);
    // up by a row; the rectangle is cut off at the bottom
    let mut fb = numbered();
    fb.blit_copy(Point { x: 0, y: 0 }, Point { x: 0, y: 1 }, 4, 4);
    assert_eq!(values(&fb), vec![4, 5, 6, 7, 8, 9, 10, 11, 12, 13, 14, 15, 12, 13, 14, 15]);
    // to the right within the rows
    let mut fb = numbered();
    fb.blit_copy(Point { x: 1, y: 0 }, Point { x: 0, y: 0 }, 3, 1);
    assert_eq!(values(&fb)[..8], [0, 0, 1, 2, 4, 5, 6, 7]);
    let mut fb = numbered();
    fb.blit_copy(Point { x: 2, y: 2 }, Point { x: 0, y: 0 }, 0, 2);
    assert_eq!(values(&fb), values(&numbered()));
}

#[test]
fn text_in_pixels() {
    let font = Font { glyphs: vec![vec![b'*'; 128], vec![b' '; 128]], xadvance: 8, yadvance: 16 };
    let mut fb = Framebuffer::new(20, 34, 80);
    fb.fill_rect(Point { x: 0, y: 0 }, 20, 34, Rgba(7));
    fb.draw_str(&font, Point { x: 0, y: 0 }, &[1, 1, 1, 1, 2, 1, 1], INK, PAPER);
    let ink = inked(&fb, INK);
    // two glyphs in the first row, the third has no room; one in the second
    // row and an empty one beside it; nothing below
    assert_eq!(ink.len(), 3 * 128);
    assert!(ink.contains(&(0, 0)) && ink.contains(&(15, 15)) && ink.contains(&(7, 31)));
    assert!(!ink.contains(&(16, 0)) && !ink.contains(&(8, 16)) && !ink.contains(&(0, 32)));
    assert_eq!(inked(&fb, PAPER).len(), 128);
    assert_eq!(fb.buf[(16 * 20 + 8) as usize], PAPER);
    assert_eq!(fb.buf[(32 * 20) as usize], Rgba(7));
    // text that begins below the last row that has room is not drawn
    let before = fb.buf.clone();
    fb.draw_str(&font, Point { x: 0, y: 19 }, &[1, 1], INK, PAPER);
    assert_eq!(fb.buf, before);
    fb.draw_str(&font, Point { x: 4, y: 0 }, &[], INK, PAPER);
    assert_eq!(fb.buf, before);
}
