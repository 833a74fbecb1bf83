use sos2::arch::port::PortWrite;
use sos2::console::{blank, Attribute, Char, Color, Console, ConsoleDriver, LogLevel, TerminalDriver,
    TerminalHelper};
use sos2::driver::video::framebuffer::{Font, Framebuffer, Point, Rgba};
use sos2::driver::video::terminal::{colormap, FramebufferDriver};
use sos2::syscall::{sys_write, syscall_dispatch, Syscall, SYSCALL_ROW};

fn cells(con: &Console) -> Vec<Char> {
    match con {
        Console::TextTerminal(t) => t.drv.buf.clone(),
        Console::FbTerminal(t) => t.drv.cells.clone(),
    }
}

fn attr_of(con: &Console) -> Attribute {
    match con {
        Console::TextTerminal(t) => t.attr,
        Console::FbTerminal(t) => t.attr,
    }
}

fn text_of(con: &Console, from: usize, len: usize) -> Vec<u8> {
    cells(con)[from..from + len].iter().map(|c| c.ascii).collect()
}

fn green(ascii: u8) -> Char {
    Char { ascii, attr: Attribute(2) }
}

fn test_font() -> Font {
    let mut glyphs = Vec::new();
    for g in 0..127u32 {
        let mut glyph = vec![b' '; 128];
        // the glyph of character g + 1 has its number of pixels set
        for k in 0..=(g as usize) {
            glyph[k] = b'*';
        }
        glyphs.push(glyph);
    }
    Font { glyphs, xadvance: 8, yadvance: 16 }
}

#[test]
fn colours_and_attributes() {
    assert_eq!(Color::Black.value(), 0);
    assert_eq!(Color::Green.value(), 2);
    assert_eq!(Color::White.value(), 15);
    for v in 0..16 {
        assert_eq!(Color::from_value(v).value(), v);
    }
    let a = Attribute::new(Color::LightRed, Color::White);
    assert_eq!(a.0, 0xfc);
    assert_eq!(a.fg(), Color::LightRed);
    assert_eq!(a.bg(), Color::White);
    assert_eq!(blank(), Char { ascii: b' ', attr: Attribute(0x0f) });
    assert_eq!(LogLevel::Debug.attribute(), Attribute::new(Color::Green, Color::Black));
    assert_eq!(LogLevel::Normal.attribute(), Attribute::new(Color::White, Color::Black));
    assert_eq!(LogLevel::Info.attribute(), Attribute::new(Color::Cyan, Color::Black));
    assert_eq!(LogLevel::Warn.attribute(), Attribute::new(Color::Red, Color::Black));
    assert_eq!(LogLevel::Critical.attribute(), Attribute::new(Color::LightRed, Color::White));
}

#[test]
fn a_new_text_console_is_empty() {
    let con = Console::new_with_text_only();
    assert_eq!(con.get_cursor(), 0);
    assert_eq!(cells(&con), vec![blank(); 2000]);
    assert_eq!(attr_of(&con), Attribute(2));
    assert_eq!(con.extract_cursor(1999), (24, 79));
    assert_eq!(con.extract_cursor(80), (1, 0));
}

#[test]
fn bytes_go_to_the_cursor() {
    let mut con = Console::new_with_text_only();
    con.write_str(b"hi");
    assert_eq!(con.get_cursor(), 2);
    assert_eq!(cells(&con)[0], green(b'h'));
    assert_eq!(cells(&con)[1], green(b'i'));
    assert_eq!(cells(&con)[2], blank());
    con.putchar(b'\n');
    assert_eq!(con.get_cursor(), 80);
    con.write_str(b"abc\r");
    assert_eq!(con.get_cursor(), 80);
    assert_eq!(text_of(&con, 80, 4), b"abc ".to_vec());
    con.putchar(b'X');
    assert_eq!(text_of(&con, 80, 4), b"Xbc ".to_vec());
    assert_eq!(con.get_cursor(), 81);
}

#[test]
fn a_row_wraps_into_the_next() {
    let mut con = Console::new_with_text_only();
    con.update_cursor(3, 79);
    assert_eq!(con.get_cursor(), 3 * 80 + 79);
    con.putchar(b'a');
    assert_eq!(con.get_cursor(), 4 * 80);
    assert_eq!(cells(&con)[3 * 80 + 79], green(b'a'));
}

#[test]
fn tabs_stop_every_eight_columns() {
    let mut con = Console::new_with_text_only();
    con.write_str(b"0123456789abcdef");
    con.update_cursor(0, 3);
    con.putchar(b'\t');
    assert_eq!(con.get_cursor(), 8);
    assert_eq!(text_of(&con, 0, 10), b"012     89".to_vec());
    assert_eq!(cells(&con)[3], blank());
    con.putchar(b'\t');
    assert_eq!(con.get_cursor(), 16);
    assert_eq!(text_of(&con, 8, 8), b"        ".to_vec());
    con.update_cursor(0, 72);
    con.putchar(b'\t');
    assert_eq!(con.get_cursor(), 79);
    con.putchar(b'\t');
    assert_eq!(con.get_cursor(), 79);
}

#[test]
fn backspace_empties_and_steps_back() {
    let mut con = Console::new_with_text_only();
    con.write_str(b"abc");
    con.update_cursor(0, 1);
    con.putchar(8);
    assert_eq!(con.get_cursor(), 0);
    assert_eq!(text_of(&con, 0, 3), b"a c".to_vec());
    con.putchar(8);
    assert_eq!(con.get_cursor(), 0);
    assert_eq!(text_of(&con, 0, 3), b"a c".to_vec());
}

#[test]
fn the_last_row_scrolls() {
    let mut con = Console::new_with_text_only();
    for row in 0..25u8 {
        con.update_cursor(row as usize, 0);
        con.putchar(b'A' + row);
    }
    con.update_cursor(24, 5);
    con.putchar(b'\n');
    assert_eq!(con.get_cursor(), 24 * 80);
    let after = cells(&con);
    for row in 0..24usize {
        assert_eq!(after[row * 80], green(b'B' + row as u8));
        assert_eq!(after[row * 80 + 1], blank());
    }
    assert!(after[24 * 80..].iter().all(|c| *c == blank()));
    // and so does a byte written to the last cell
    con.update_cursor(24, 79);
    con.putchar(b'z');
    assert_eq!(con.get_cursor(), 24 * 80);
    let after = cells(&con);
    assert_eq!(after[23 * 80 + 79], green(b'z'));
    assert_eq!(after[0], green(b'C'));
    assert!(after[24 * 80..].iter().all(|c| *c == blank()));
}

#[test]
fn a_line_feed_above_the_last_row_moves_nothing() {
    let mut con = Console::new_with_text_only();
    con.write_str(b"top");
    con.update_cursor(23, 7);
    con.putchar(b'\n');
    assert_eq!(con.get_cursor(), 24 * 80);
    assert_eq!(text_of(&con, 0, 3), b"top".to_vec());
}

#[test]
fn clearing_empties_the_console() {
    let mut con = Console::new_with_text_only();
    con.write_str(b"some text\nand more");
    let before = con.set_attr(Attribute(0x4f));
    assert_eq!(before, Attribute(2));
    sos2::console::clear(&mut con);
    assert_eq!(con.get_cursor(), 0);
    assert_eq!(cells(&con), vec![blank(); 2000]);
    assert_eq!(attr_of(&con), Attribute(0x4f));
    con.write_str(b"x");
    con.clear();
    assert_eq!(cells(&con), vec![blank(); 2000]);
}

#[test]
fn the_log_colours_by_level() {
    let mut con = Console::new_with_text_only();
    con.printk(LogLevel::Warn, b"careful", false);
    assert_eq!(con.get_cursor(), 7);
    assert_eq!(text_of(&con, 0, 7), b"careful".to_vec());
    assert!(cells(&con)[..7].iter().all(|c| c.attr == Attribute(4)));
    assert_eq!(attr_of(&con), Attribute(2));
    con.printk(LogLevel::Critical, b"!", true);
    assert_eq!(cells(&con)[7], Char { ascii: b'!', attr: Attribute(0xfc) });
    con.printk(LogLevel::Normal, b"n", false);
    assert_eq!(cells(&con)[8], Char { ascii: b'n', attr: Attribute(0x0f) });
    con.printk(LogLevel::Info, b"i", false);
    assert_eq!(cells(&con)[9], Char { ascii: b'i', attr: Attribute(3) });
}

#[test]
fn debug_messages_are_dropped_unless_asked_for() {
    let mut con = Console::new_with_text_only();
    con.printk(LogLevel::Debug, b"quiet", false);
    assert_eq!(con.get_cursor(), 0);
    assert_eq!(cells(&con), vec![blank(); 2000]);
    con.printk(LogLevel::Debug, b"loud", true);
    assert_eq!(con.get_cursor(), 4);
    assert_eq!(text_of(&con, 0, 4), b"loud".to_vec());
    assert_eq!(cells(&con)[0].attr, Attribute(2));
}

#[test]
fn the_text_cursor_goes_to_the_display_controller() {
    let mut con = Console::new_with_text_only();
    con.update_cursor(3, 5);
    let cursor: u32 = 3 * 80 + 5;
    match &mut con {
        Console::TextTerminal(t) => {
            let w = t.drv.take_outbox();
            assert_eq!(w, vec![
                PortWrite { port: 0x3D4, value: 0x0E, width: 1 },
                PortWrite { port: 0x3D5, value: cursor >> 8, width: 1 },
                PortWrite { port: 0x3D4, value: 0x0F, width: 1 },
                PortWrite { port: 0x3D5, value: cursor & 0xff, width: 1 },
            ]);
            assert!(t.drv.take_outbox().is_empty());
        }
        _ => panic!("a text console"),
    }
    con.write_str(b"ab");
    match &mut con {
        Console::TextTerminal(t) => {
            let w = t.drv.take_outbox();
            assert_eq!(w.len(), 8);
            assert_eq!(w[7], PortWrite { port: 0x3D5, value: (cursor + 2) & 0xff, width: 1 });
        }
        _ => panic!("a text console"),
    }
}

#[test]
fn write_logs_what_the_task_says() {
    let mut con = Console::new_with_text_only();
    con.write_str(b"kernel");
    sys_write(&mut con, 1, b"userspace", true);
    assert_eq!(text_of(&con, SYSCALL_ROW * 80, 10), b"userspace ".to_vec());
    assert!(cells(&con)[SYSCALL_ROW * 80..SYSCALL_ROW * 80 + 9].iter().all(|c| c.attr == Attribute(2)));
    // cursor and colours are as before
    assert_eq!(con.get_cursor(), 6);
    assert_eq!(attr_of(&con), Attribute(2));
    assert_eq!(text_of(&con, 0, 6), b"kernel".to_vec());
    assert_eq!(SYSCALL_ROW, 18);
}

#[test]
fn write_is_silent_without_debugging() {
    let mut con = Console::new_with_text_only();
    sys_write(&mut con, 1, b"userspace", false);
    assert_eq!(cells(&con), vec![blank(); 2000]);
    assert_eq!(con.get_cursor(), 0);
}

#[test]
fn write_is_dispatched_by_number() {
    let mut con = Console::new_with_text_only();
    con.update_cursor(2, 2);
    let text = b"userspace";
    let args = [1u64, 0x0400_0100, text.len() as u64, 0, 0, 0];
    syscall_dispatch(&mut con, Syscall::WRITE.number(), &args, text, true);
    assert_eq!(text_of(&con, 18 * 80, 9), b"userspace".to_vec());
    assert_eq!(con.get_cursor(), 2 * 80 + 2);
}

#[test]
fn a_console_on_the_framebuffer() {
    let fb = Framebuffer::new(32, 48, 32 * 4);
    let mut con = Console::new_with_fb(fb, test_font());
    assert_eq!(con.extract_cursor(11), (2, 3));
    assert_eq!(cells(&con), vec![blank(); 12]);
    con.putchar(3);
    con.putchar(b'\n');
    con.putchar(1);
    assert_eq!(con.get_cursor(), 5);
    assert_eq!(cells(&con)[0], green(3));
    assert_eq!(cells(&con)[4], green(1));
    match &con {
        Console::FbTerminal(t) => {
            let fg = colormap(2);
            let bg = colormap(0);
            assert_eq!(fg, Rgba(0x00ff00));
            // the glyph of character 3 has its first three pixels set
            assert_eq!(t.drv.fb.buf[0..4], [fg, fg, fg, bg]);
            // the second row of cells starts 16 rows of pixels down
            assert_eq!(t.drv.fb.buf[16 * 32..16 * 32 + 2], [fg, bg]);
            assert_eq!(t.drv.fb.buf.iter().filter(|p| **p == fg).count(), 4);
        }
        _ => panic!("a console on the framebuffer"),
    }
    // the last row scrolls
    con.update_cursor(2, 0);
    con.putchar(2);
    con.putchar(b'\n');
    assert_eq!(con.get_cursor(), 8);
    assert_eq!(cells(&con)[0], green(1));
    assert_eq!(cells(&con)[4], green(2));
    assert_eq!(cells(&con)[8], blank());
    match &con {
        Console::FbTerminal(t) => {
            let fg = colormap(2);
            assert_eq!(t.drv.fb.buf[0..2], [fg, colormap(0)]);
            assert_eq!(t.drv.fb.buf[16 * 32..16 * 32 + 3], [fg, fg, colormap(0)]);
            assert_eq!(t.drv.fb.buf.iter().filter(|p| **p == fg).count(), 3);
        }
        _ => panic!("a console on the framebuffer"),
    }
}

#[test]
fn a_terminal_of_its_own() {
    let mut t = TerminalHelper::new(sos2::console::ConsoleDriver::new());
    assert_eq!(t.contract_cursor(2, 3), 163);
    assert_eq!(t.extract_cursor(163), (2, 3));
    assert_eq!(t.get_attr(), Attribute(2));
    assert_eq!(t.set_attr(Attribute(7)), Attribute(2));
    t.write_byte(b'q');
    assert_eq!(t.drv.buf[0], Char { ascii: b'q', attr: Attribute(7) });
    assert_eq!(t.advance(), 1);
    assert_eq!(t.cursor, 2);
    assert_eq!(t.retreat(), 2);
    assert_eq!(t.cursor, 1);
    t.clear();
    assert_eq!(t.cursor, 0);
    assert_eq!(t.drv.buf[0], blank());
}

#[test]
fn logging_at_a_place() {
    let mut con = Console::new_with_text_only();
    con.write_str(b"abc");
    con.with(20, 4, LogLevel::Info, b"here", false);
    assert_eq!(text_of(&con, 20 * 80 + 4, 4), b"here".to_vec());
    assert!(cells(&con)[20 * 80 + 4..20 * 80 + 8].iter().all(|c| c.attr == Attribute(3)));
    assert_eq!(cells(&con)[20 * 80 + 3], blank());
    assert_eq!(con.get_cursor(), 3);
    assert_eq!(attr_of(&con), Attribute(2));
    let before = cells(&con);
    con.with(21, 0, LogLevel::Debug, b"quiet", false);
    assert_eq!(cells(&con), before);
    assert_eq!(con.get_cursor(), 3);
    // in the last row the text scrolls the screen, and the cursor stays
    con.with(24, 78, LogLevel::Normal, b"xyz", true);
    assert_eq!(con.get_cursor(), 3);
    assert_eq!(text_of(&con, 19 * 80 + 4, 4), b"here".to_vec());
    assert_eq!(text_of(&con, 23 * 80 + 78, 2), b"xy".to_vec());
    assert_eq!(text_of(&con, 24 * 80, 2), b"z ".to_vec());
}

#[test]
fn only_the_framebuffer_sets_the_size() {
    let text = ConsoleDriver::new();
    assert!(!text.resizable());
    assert_eq!((text.get_max_cols(), text.get_max_rows()), (80, 25));
    let drawn = FramebufferDriver::new(Framebuffer::new(24, 32, 96), test_font());
    assert!(drawn.resizable());
    assert_eq!((drawn.get_max_cols(), drawn.get_max_rows()), (3, 2));
    // over the text mode a terminal is ready as it is made
    let mut t = TerminalHelper::new(text);
    t.write_byte(b'a');
    assert_eq!(t.cursor, 1);
}

#[test]
fn redrawing_shows_the_cells_again() {
    let mut d = FramebufferDriver::new(Framebuffer::new(20, 32, 80), test_font());
    d.draw_byte(0, Char { ascii: 2, attr: Attribute(0x14) });
    d.draw_byte(3, Char { ascii: 1, attr: Attribute(0x02) });
    let shown = d.fb.buf.clone();
    let cells = d.cells.clone();
    // the pixels are lost; the cells are still known
    d.fb.fill_rect(Point { x: 0, y: 0 }, 20, 32, Rgba(0x77));
    d.redraw();
    assert_eq!(d.cells, cells);
    let red = colormap(4);
    let blue = colormap(1);
    let green = colormap(2);
    // the first cell: two pixels of the glyph in red on blue
    assert_eq!(d.fb.buf[0..3], [red, red, blue]);
    assert_eq!(d.fb.buf[15 * 20 + 7], blue);
    // the second row of the grid begins 16 rows of pixels down
    assert_eq!(d.fb.buf[16 * 20 + 8..16 * 20 + 10], [green, colormap(0)]);
    // right of the grid nothing is drawn
    assert_eq!(d.fb.buf[16], Rgba(0x77));
    assert_eq!(d.fb.buf[31 * 20 + 19], Rgba(0x77));
    // every cell is drawn, the empty ones too: as before, where the grid is
    for y in 0..32 {
        for x in 0..16 {
            let k = y * 20 + x;
            let in_drawn_cell = (y < 16 && x < 8) || (y >= 16 && x >= 8);
            if in_drawn_cell {
                assert_eq!(d.fb.buf[k], shown[k]);
            }
        }
    }
    assert_eq!((d.fb.width, d.fb.height, d.fb.pitch), (20, 32, 80));
}

#[test]
fn the_cursor_may_leave_the_grid() {
    let mut con = Console::new_with_text_only();
    con.write_str(b"ab");
    con.update_cursor(30, 5);
    assert_eq!(con.get_cursor(), 30 * 80 + 5);
    assert_eq!(con.extract_cursor(30 * 80 + 5), (30, 5));
    match &mut con {
        Console::TextTerminal(t) => {
            let w = t.drv.take_outbox();
            let at: u32 = 30 * 80 + 5;
            assert_eq!(w[w.len() - 3].value, at >> 8);
            assert_eq!(w[w.len() - 1].value, at & 0xff);
        }
        _ => panic!("a text console"),
    }
    assert_eq!(text_of(&con, 0, 3), b"ab ".to_vec());
    // and come back
    con.update_cursor(0, 2);
    con.putchar(b'c');
    assert_eq!(text_of(&con, 0, 3), b"abc".to_vec());
    let mut t = TerminalHelper::new(ConsoleDriver::new());
    t.update_cursor(25, 0);
    assert_eq!(t.cursor, 2000);
    assert_eq!((t.cols, t.rows, t.get_attr()), (80, 25, Attribute(2)));
}

#[test]
fn write_on_a_small_console() {
    // two rows of four cells: there is no row for what tasks write
    let mut con = Console::new_with_fb(Framebuffer::new(32, 32, 128), test_font());
    con.putchar(1);
    let before = cells(&con);
    sys_write(&mut con, 1, b"userspace", false);
    assert_eq!(cells(&con), before);
    assert_eq!(con.get_cursor(), 1);
    con.with(40, 0, LogLevel::Debug, b"dropped", false);
    assert_eq!(cells(&con), before);
    assert_eq!(con.get_cursor(), 1);
}
