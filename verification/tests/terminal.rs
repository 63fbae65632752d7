use luasys::terminal::{glyph_origin, result_text, Terminal, SLIDE};

#[test]
fn a_new_terminal_is_off_and_empty() {
    let t = Terminal::new(400, 7, 9);
    assert!(!t.is_active());
    assert_eq!(t.commandline(), "");
    assert_eq!(t.history_len(), 0);
    assert_eq!(t.panel(), (0, 400));
}

#[test]
fn toggle_switches_on_and_off() {
    let mut t = Terminal::new(400, 7, 9);
    t.toggle();
    assert!(t.is_active());
    t.toggle();
    assert!(!t.is_active());
}

#[test]
fn the_command_line_is_edited() {
    let mut t = Terminal::new(400, 7, 9);
    t.append_commandline("pri");
    t.append_commandline("nt");
    assert_eq!(t.commandline(), "print");
    t.backspace();
    assert_eq!(t.commandline(), "prin");
    t.update_commandline(String::from("x = 1"));
    assert_eq!(t.commandline(), "x = 1");
    t.update_commandline(String::new());
    t.backspace();
    assert_eq!(t.commandline(), "");
}

#[test]
fn backspace_removes_a_whole_character() {
    let mut t = Terminal::new(400, 7, 9);
    t.append_commandline("aé");
    t.backspace();
    assert_eq!(t.commandline(), "a");
    t.backspace();
    assert_eq!(t.commandline(), "");
}

#[test]
fn record_puts_the_newest_first() {
    let mut t = Terminal::new(400, 7, 9);
    t.append_commandline("pending");
    t.record(String::from("a"), String::from("1"));
    t.record(String::from("b"), String::from("2"));
    assert_eq!(t.commandline(), "");
    assert_eq!(t.history_len(), 2);
    assert_eq!(t.history(0), ("b", "2"));
    assert_eq!(t.history(1), ("a", "1"));
}

#[test]
fn commands_run_in_the_script() {
    let lua = rlua::Lua::new();
    lua.context(|ctx| {
        let mut t = Terminal::new(400, 7, 9);
        assert_eq!(t.process_command(ctx, String::from("1 + 2")), "3");
        assert_eq!(t.process_command(ctx, String::from("1.5")), "1.5");
        assert_eq!(t.process_command(ctx, String::from("1 < 2")), "true");
        assert_eq!(t.process_command(ctx, String::from("'a' .. 'b'")), "ab");
        assert_eq!(t.process_command(ctx, String::from("nil")), "Nil");
        assert_eq!(t.process_command(ctx, String::from("x = 5")), "Nil");
        assert_eq!(t.process_command(ctx, String::from("x")), "5");
        assert!(t.process_command(ctx, String::from("{}")).starts_with("Table"));
        let failure = t.process_command(ctx, String::from("error('boom')"));
        assert!(failure.contains("boom"));
        assert_eq!(t.history_len(), 9);
        assert_eq!(t.history(0).0, "error('boom')");
        assert_eq!(t.history(0).1, failure);
        assert_eq!(t.history(8), ("1 + 2", "3"));
        t.append_commandline("x + 1");
        assert_eq!(t.process_commandline(ctx), "6");
        assert_eq!(t.commandline(), "");
        assert_eq!(t.history(0), ("x + 1", "6"));
    });
}

#[test]
fn values_are_shown_as_the_console_prints_them() {
    let lua = rlua::Lua::new();
    lua.context(|ctx| {
        let eval = |src: &str| result_text(ctx.load(src).eval::<rlua::Value>().unwrap());
        assert_eq!(eval("nil"), "Nil");
        assert_eq!(eval("false"), "false");
        assert_eq!(eval("-7"), "-7");
        assert_eq!(eval("0.5"), "0.5");
        assert_eq!(eval("'text'"), "text");
        assert!(eval("print").starts_with("Function"));
    });
}

#[test]
fn the_panel_slides_in_and_out() {
    let mut t = Terminal::new(50, 7, 9);
    t.slide();
    assert_eq!(t.panel().0, 0);
    t.toggle();
    t.slide();
    assert_eq!(t.panel().0, SLIDE);
    t.slide();
    t.slide();
    assert_eq!(t.panel().0, 60);
    t.slide();
    assert_eq!(t.panel().0, 60);
    t.toggle();
    t.slide();
    assert_eq!(t.panel().0, 40);
    t.slide();
    t.slide();
    assert_eq!(t.panel().0, 0);
    t.slide();
    assert_eq!(t.panel().0, 0);
}

#[test]
fn the_slide_stops_at_the_largest_height() {
    let mut t = Terminal::new(u32::MAX, 7, 9);
    t.toggle();
    for _ in 0..3 {
        t.slide();
    }
    assert_eq!(t.panel().0, 60);
}

#[test]
fn a_closed_panel_has_no_lines() {
    let mut t = Terminal::new(400, 7, 9);
    assert!(t.lines("title").is_none());
    t.toggle();
    for _ in 0..19 {
        t.slide();
    }
    assert!(t.lines("title").is_none());
    t.slide();
    assert!(t.lines("title").is_some());
    let mut flat = Terminal::new(0, 7, 0);
    flat.toggle();
    assert!(flat.lines("title").is_none());
    let mut low = Terminal::new(20, 7, 9);
    low.toggle();
    low.slide();
    assert!(low.lines("title").is_none());
}

#[test]
fn the_open_panel_lists_its_lines() {
    let mut t = Terminal::new(400, 7, 9);
    t.toggle();
    for _ in 0..20 {
        t.slide();
    }
    t.record(String::from("first"), String::from("1"));
    t.record(String::from("second"), String::from("2"));
    t.append_commandline("typing");
    let lines = t.lines("lua dev console").unwrap();
    let shown: Vec<(u32, &str)> = lines.iter().map(|l| (l.row, l.text.as_str())).collect();
    assert_eq!(
        shown,
        vec![
            (43, "typing"),
            (40, "second"),
            (41, "2"),
            (38, "first"),
            (39, "1"),
            (0, "lua dev console"),
        ]
    );
}

#[test]
fn only_the_newest_commands_that_fit_are_listed() {
    let mut t = Terminal::new(60, 7, 10);
    t.toggle();
    for _ in 0..3 {
        t.slide();
    }
    for i in 0..4 {
        t.record(format!("c{}", i), format!("o{}", i));
    }
    let lines = t.lines("title").unwrap();
    let shown: Vec<(u32, &str)> = lines.iter().map(|l| (l.row, l.text.as_str())).collect();
    assert_eq!(shown, vec![(5, ""), (2, "c3"), (3, "o3"), (0, "title")]);
    let mut tight = Terminal::new(30, 7, 10);
    tight.toggle();
    tight.slide();
    tight.slide();
    tight.record(String::from("c"), String::from("o"));
    let lines = tight.lines("title").unwrap();
    let shown: Vec<(u32, &str)> = lines.iter().map(|l| (l.row, l.text.as_str())).collect();
    assert_eq!(shown, vec![(2, ""), (0, "title")]);
}

#[test]
fn glyphs_are_found_row_by_row() {
    assert_eq!(glyph_origin(' ', 112, 7, 9), Some((0, 0)));
    assert_eq!(glyph_origin('!', 112, 7, 9), Some((7, 0)));
    assert_eq!(glyph_origin('/', 112, 7, 9), Some((105, 0)));
    assert_eq!(glyph_origin('0', 112, 7, 9), Some((0, 9)));
    assert_eq!(glyph_origin('A', 112, 7, 9), Some((7, 18)));
    assert_eq!(glyph_origin('\n', 112, 7, 9), Some((-42, -9)));
    assert_eq!(glyph_origin('\u{1f}', 112, 7, 9), Some((-7, 0)));
    assert_eq!(glyph_origin('A', 112, 0, 9), None);
    assert_eq!(glyph_origin('A', 6, 7, 9), None);
    assert_eq!(glyph_origin('A', 7, 7, 9), Some((0, 297)));
}

#[test]
fn each_kind_of_value_has_its_text() {
    let lua = rlua::Lua::new();
    lua.context(|ctx| {
        assert_eq!(result_text(rlua::Value::Nil), "Nil");
        assert_eq!(result_text(rlua::Value::Boolean(true)), "true");
        assert_eq!(result_text(rlua::Value::Boolean(false)), "false");
        assert_eq!(result_text(rlua::Value::Integer(0)), "0");
        assert_eq!(result_text(rlua::Value::Integer(i64::MIN)), "-9223372036854775808");
        assert_eq!(result_text(rlua::Value::Integer(i64::MAX)), "9223372036854775807");
        assert_eq!(result_text(rlua::Value::Number(-2.25)), "-2.25");
        assert_eq!(result_text(rlua::Value::Number(3.0)), "3");
        assert_eq!(result_text(rlua::Value::Number(f64::INFINITY)), "inf");
        let empty = ctx.create_string("").unwrap();
        assert_eq!(result_text(rlua::Value::String(empty)), "");
        let nil_text = ctx.create_string("Nil").unwrap();
        assert_eq!(result_text(rlua::Value::String(nil_text)), "Nil");
        let broken = ctx.create_string(&[0xffu8, 0xfe][..]).unwrap();
        assert!(result_text(rlua::Value::String(broken)).starts_with("String"));
        let table = ctx.create_table().unwrap();
        assert!(result_text(rlua::Value::Table(table)).starts_with("Table"));
    });
}
