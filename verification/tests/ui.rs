use tmux_selector::app::{Action, App, Prompt};
use tmux_selector::bar::{render_action_bar, render_hint, render_status, render_title};
use tmux_selector::mouse::{MouseMap, Rect, Region, Segment};
use tmux_selector::paint::{Ground, Ink, Line, Style};
use tmux_selector::popup::{centered, place_popup, render_prompt};
use tmux_selector::ssh::Session;
use tmux_selector::table::{make_head_row, render_table};
use tmux_selector::ui::{choose_parts, layout, render, RenderCtx};

const PLAIN: Style = Style { ink: Ink::Plain, ground: Ground::Plain, bold: false };

fn ink(ink: Ink) -> Style {
    Style { ink, ground: Ground::Plain, bold: false }
}

fn bold(ink: Ink) -> Style {
    Style { ink, ground: Ground::Plain, bold: true }
}

fn cursor() -> Style {
    Style { ink: Ink::White, ground: Ground::Blue, bold: false }
}

fn shade(ink: Ink) -> Style {
    Style { ink, ground: Ground::Shade, bold: false }
}

fn rect(x: u16, y: u16, width: u16, height: u16) -> Rect {
    Rect { x, y, width, height }
}

fn spans(line: &Line) -> Vec<(String, Style)> {
    line.spans.iter().map(|s| (s.text.clone(), s.style)).collect()
}

fn piece(text: &str, style: Style) -> (String, Style) {
    (text.to_string(), style)
}

fn text(line: &Line) -> String {
    line.spans.iter().map(|s| s.text.as_str()).collect()
}

fn sess(name: &str, running: bool, activity_ts: i64) -> Session {
    Session {
        name: name.to_string(),
        running,
        created: "Nov 14 22:13".to_string(),
        activity: "Nov 15 01:02".to_string(),
        activity_ts,
        dir: String::new(),
    }
}

fn app() -> App {
    App::new(vec![sess("p/a", true, 9), sess("p/b", false, 8), sess("loose", true, 7)])
}

#[test]
fn the_title_names_the_host() {
    assert_eq!(
        spans(&render_title("box", false, 0)),
        vec![
            piece("  ", PLAIN),
            piece("⚡ tmux :: ", ink(Ink::Magenta)),
            piece("box", bold(Ink::Cyan)),
        ]
    );
    assert_eq!(spans(&render_title("box", false, 12))[3], piece("   (12 archived · ^A)", ink(Ink::DarkGray)));
    assert_eq!(spans(&render_title("box", true, 12))[3], piece("   [ARCHIVED VIEW]", bold(Ink::Yellow)));
}

#[test]
fn the_table_has_titles() {
    let head = make_head_row();
    assert_eq!(text(&head.marker), "");
    assert_eq!(spans(&head.name), vec![piece("SESSION", ink(Ink::DarkGray))]);
    assert_eq!(spans(&head.started), vec![piece("STARTED", ink(Ink::DarkGray))]);
    assert_eq!(spans(&head.active), vec![piece("ACTIVE", ink(Ink::DarkGray))]);
}

#[test]
fn the_table_shows_groups_apart() {
    let mut app = app();
    app.cursor = 2;
    app.toggle_pick_at(3);
    let table = render_table(&app);
    let names: Vec<String> = table.rows.iter().map(|r| text(&r.name)).collect();
    assert_eq!(
        names,
        vec!["+ New session", "", "p  (2)", "├─ a", "└─ b", "", "other  (1)", "└─ loose"]
    );
    assert_eq!(
        table.line_rows,
        vec![Some(0), None, None, Some(1), Some(2), None, None, Some(3)]
    );
    assert_eq!(table.cursor, Some(4));
    assert_eq!(spans(&table.rows[0].name), vec![piece("+ New session", ink(Ink::Green))]);
    assert_eq!(
        spans(&table.rows[2].name),
        vec![piece("p", bold(Ink::Magenta)), piece("  (2)", ink(Ink::DarkGray))]
    );

    let running = &table.rows[3];
    assert_eq!(
        spans(&running.marker),
        vec![piece(" ", ink(Ink::Yellow)), piece("  ", PLAIN), piece("●", ink(Ink::Green))]
    );
    assert_eq!(
        spans(&running.name),
        vec![piece("├─", ink(Ink::DarkGray)), piece(" ", PLAIN), piece("a", ink(Ink::Cyan))]
    );
    assert_eq!(spans(&running.started), vec![piece("Nov 14 22:13", ink(Ink::Yellow))]);
    assert_eq!(spans(&running.active), vec![piece("Nov 15 01:02", ink(Ink::Yellow))]);
    assert_eq!(running.style, PLAIN);

    let under = &table.rows[4];
    assert_eq!(spans(&under.marker)[2], piece("○", ink(Ink::DarkGray)));
    assert_eq!(
        spans(&under.name),
        vec![piece("└─", cursor()), piece(" ", PLAIN), piece("b", cursor())]
    );
    assert_eq!(spans(&under.started), vec![piece("Nov 14 22:13", cursor())]);
    assert_eq!(under.style, cursor());

    let picked = &table.rows[7];
    assert_eq!(spans(&picked.marker)[0], piece("✓", ink(Ink::Yellow)));
    assert_eq!(
        spans(&picked.name),
        vec![
            piece("└─", shade(Ink::DarkGray)),
            piece(" ", PLAIN),
            piece("loose", shade(Ink::Cyan)),
        ]
    );
    assert_eq!(spans(&picked.active), vec![piece("Nov 15 01:02", shade(Ink::Yellow))]);
    assert_eq!(picked.style, shade(Ink::Plain));
}

#[test]
fn the_table_under_a_search() {
    let mut app = app();
    app.push_search('s');
    let table = render_table(&app);
    let names: Vec<String> = table.rows.iter().map(|r| text(&r.name)).collect();
    assert_eq!(names, vec!["other  (1)", "└─ loose"]);
    assert_eq!(table.line_rows, vec![None, Some(3)]);
    assert_eq!(table.cursor, Some(1));
    app.push_search('!');
    let nothing = render_table(&app);
    assert!(nothing.rows.is_empty());
    assert_eq!(nothing.cursor, None);
}

#[test]
fn the_new_entry_under_the_cursor() {
    let table = render_table(&App::new(vec![]));
    assert_eq!(spans(&table.rows[0].name), vec![piece("+ New session", cursor())]);
    assert_eq!(table.rows[0].style, Style { ink: Ink::Plain, ground: Ground::Blue, bold: false });
    assert_eq!(table.cursor, Some(0));
}

#[test]
fn the_bar_shows_the_actions() {
    let mut app = app();
    app.action = Action::Move;
    let bar = render_action_bar(&app, 3, false);
    assert_eq!(text(&bar.line), "    attach  │  rename  │  move  │  archive  │  delete  ");
    assert_eq!(spans(&bar.line)[5], piece("  move  ", cursor()));
    assert_eq!(spans(&bar.line)[1], piece("  attach  ", ink(Ink::DarkGray)));
    let regions: Vec<(u16, u16, Segment)> =
        bar.regions.iter().map(|r| (r.start, r.end, r.segment)).collect();
    assert_eq!(
        regions,
        vec![
            (5, 15, Segment::Run(Action::Attach)),
            (16, 26, Segment::Run(Action::Rename)),
            (27, 35, Segment::Run(Action::Move)),
            (36, 47, Segment::Archive),
            (48, 58, Segment::Run(Action::Delete)),
        ]
    );
    let archived = render_action_bar(&app, 3, true);
    assert_eq!(
        text(&archived.line),
        "    attach  │  rename  │  move  │  unarchive  │  delete  "
    );
    assert_eq!(spans(&archived.line)[7], piece("  unarchive  ", ink(Ink::DarkGray)));
    assert_eq!(
        archived.regions[3],
        Region { start: 36, end: 49, segment: Segment::Unarchive }
    );
    assert_eq!(archived.regions[4].start, 50);
}

#[test]
fn the_bar_counts_the_picked() {
    let mut app = app();
    app.toggle_pick_at(1);
    app.toggle_pick_at(2);
    let bar = render_action_bar(&app, 0, false);
    assert_eq!(
        text(&bar.line),
        "    attach  │  rename  │  move 2  │  archive 2  │  delete 2    ✓ 2 selected"
    );
    assert_eq!(spans(&bar.line).last().unwrap(), &piece("✓ 2 selected", ink(Ink::Yellow)));
    let regions: Vec<(u16, u16)> = bar.regions.iter().map(|r| (r.start, r.end)).collect();
    assert_eq!(regions, vec![(2, 12), (13, 23), (24, 34), (35, 48), (49, 61)]);
    let archived = render_action_bar(&app, 0, true);
    assert!(text(&archived.line).contains("│  unarchive 2  │"));
}

#[test]
fn the_hint_says_what_keys_do() {
    assert_eq!(
        text(&render_hint("", false)),
        "  ↑↓/click nav   type to search   ↵ run  ⇥ action  ␣ pick  ^A archived  q quit"
    );
    assert_eq!(text(&render_hint("", true)).contains("^A active  "), true);
    let search = render_hint("ab", false);
    assert_eq!(text(&search), "  ab█    ↵ run  ⇥ action  ␣ pick  esc clear");
    assert_eq!(spans(&search)[1], piece("ab", ink(Ink::Cyan)));
    assert_eq!(
        spans(&render_status("Deleting 3…")),
        vec![piece("  ", PLAIN), piece("Deleting 3…", ink(Ink::Yellow))]
    );
}

fn popup_text(prompt: &Prompt) -> (String, Vec<String>) {
    let popup = render_prompt(prompt, rect(0, 0, 80, 24)).unwrap();
    (popup.title, popup.body.iter().map(text).collect())
}

fn names(list: &[&str]) -> Vec<String> {
    list.iter().map(|s| s.to_string()).collect()
}

#[test]
fn the_question_names_what_is_deleted() {
    let (title, one) = popup_text(&Prompt::ConfirmDelete { names: names(&["p/a"]) });
    assert_eq!(title, " Delete ");
    assert_eq!(one, vec!["Delete p/a?", "", "y delete    n/esc cancel"]);
    let (_, four) = popup_text(&Prompt::ConfirmDelete { names: names(&["a", "b", "c", "d"]) });
    assert_eq!(four[..2], ["Delete 4 sessions?", "a, b, c, d"]);
    let (_, six) =
        popup_text(&Prompt::ConfirmDelete { names: names(&["a", "b", "c", "d", "e", "f"]) });
    assert_eq!(six, vec!["Delete 6 sessions?", "a, b, c, d, +2 more", "", "y delete    n/esc cancel"]);
    let (_, none) = popup_text(&Prompt::ConfirmDelete { names: vec![] });
    assert_eq!(none[..2], ["Delete 0 sessions?", ""]);
}

#[test]
fn inputs_show_what_is_typed() {
    let prompt = Prompt::Rename { old: "p/a".to_string(), buffer: "p/ab".to_string() };
    let (title, body) = popup_text(&prompt);
    assert_eq!(title, " Rename ");
    assert_eq!(body, vec!["renaming p/a", "", "> p/ab█", "", "↵ confirm    esc cancel"]);
    let (title, body) = popup_text(&Prompt::NewSession { buffer: String::new() });
    assert_eq!(title, " New session ");
    assert_eq!(body, vec!["name as project/name", "", "> █", "", "↵ confirm    esc cancel"]);
}

#[test]
fn the_choice_highlights_one_project() {
    let prompt = Prompt::MoveTo {
        names: names(&["p/a"]),
        candidates: names(&["p", "q", "other"]),
        selected: 1,
    };
    let popup = render_prompt(&prompt, rect(0, 0, 80, 24)).unwrap();
    assert_eq!(popup.title, " Move to project ");
    let body: Vec<String> = popup.body.iter().map(text).collect();
    assert_eq!(
        body,
        vec!["move p/a", "", "  p", "› q", "  other", "", "↑↓ pick    ↵ confirm    esc cancel"]
    );
    assert_eq!(
        spans(&popup.body[3]),
        vec![
            piece("› ", ink(Ink::Cyan)),
            piece("q", Style { ink: Ink::White, ground: Ground::Blue, bold: true }),
        ]
    );
    assert_eq!(spans(&popup.body[2])[1], piece("p", ink(Ink::White)));
    let several = Prompt::MoveTo {
        names: names(&["p/a", "p/b"]),
        candidates: names(&["other"]),
        selected: 0,
    };
    assert_eq!(popup_text(&several).1[0], "move 2 sessions");
}

#[test]
fn popups_are_as_wide_as_their_text() {
    let area = rect(0, 0, 80, 24);
    let short = render_prompt(&Prompt::NewSession { buffer: String::new() }, area).unwrap();
    assert_eq!(short.area, rect(19, 5, 42, 7));
    let buffer = "x".repeat(47);
    let long = render_prompt(&Prompt::NewSession { buffer }, area).unwrap();
    assert_eq!(long.area, rect(13, 5, 54, 7));
    let buffer = "界".repeat(20);
    let wide = render_prompt(&Prompt::NewSession { buffer }, area).unwrap();
    assert_eq!(wide.area, rect(16, 5, 47, 7));
    let buffer = "x".repeat(200);
    let full = render_prompt(&Prompt::NewSession { buffer }, area).unwrap();
    assert_eq!(full.area, rect(2, 5, 76, 7));
    assert!(render_prompt(&Prompt::Closed, area).is_none());
    let buffer = "x".repeat(65536 + 40);
    let far = render_prompt(&Prompt::NewSession { buffer }, area).unwrap();
    assert_eq!(far.area, rect(2, 5, 76, 7));
}

#[test]
fn popups_are_placed_by_their_widths() {
    let area = rect(4, 2, 80, 24);
    assert_eq!(place_popup(area, &vec![10, 50, 3], "Delete"), rect(17, 8, 54, 5));
    assert_eq!(place_popup(area, &vec![10], "Delete"), rect(23, 9, 42, 3));
    assert_eq!(place_popup(area, &vec![65531], "Delete"), rect(6, 9, 76, 3));
    assert_eq!(place_popup(area, &vec![65532], "Delete"), rect(6, 9, 76, 3));
    assert_eq!(place_popup(area, &vec![65536 + 40], "Delete"), rect(6, 9, 76, 3));
    assert_eq!(place_popup(area, &vec![1; 65536 + 1], "Delete"), rect(23, 2, 42, 24));
    assert_eq!(place_popup(area, &vec![1; 65533], "Delete"), rect(23, 2, 42, 24));
    assert_eq!(place_popup(area, &vec![usize::MAX], "Delete"), rect(6, 9, 76, 3));
    assert_eq!(place_popup(area, &vec![71], "Delete"), rect(6, 9, 75, 3));
    assert_eq!(place_popup(area, &vec![72], "Delete"), rect(6, 9, 76, 3));
    assert_eq!(place_popup(area, &vec![1; 21], "Delete"), rect(23, 2, 42, 23));
    assert_eq!(place_popup(rect(0, 0, 3, 1), &vec![1], "Delete"), rect(1, 0, 0, 1));
}

#[test]
fn rectangles_are_centred_in_the_upper_third() {
    assert_eq!(centered(rect(0, 0, 80, 24), 40, 6), rect(20, 6, 40, 6));
    assert_eq!(centered(rect(10, 5, 21, 10), 4, 3), rect(18, 7, 4, 3));
    assert_eq!(centered(rect(1, 2, 10, 4), 40, 6), rect(1, 2, 10, 4));
}

#[test]
fn the_screen_is_split_into_parts() {
    let parts = layout(rect(0, 0, 80, 24));
    assert_eq!(parts.title, rect(0, 0, 80, 2));
    assert_eq!(parts.table, rect(0, 2, 80, 19));
    assert_eq!(parts.bar, rect(0, 22, 80, 1));
    assert_eq!(parts.hint, rect(0, 23, 80, 1));
    let low = layout(rect(3, 4, 20, 8));
    assert_eq!(low.title, rect(3, 4, 20, 2));
    assert_eq!(low.table, rect(3, 6, 20, 3));
    assert_eq!(low.bar, rect(3, 10, 20, 1));
    assert_eq!(low.hint, rect(3, 11, 20, 1));
    let chunks = vec![rect(0, 0, 1, 1), rect(0, 1, 1, 1), rect(0, 2, 1, 1), rect(0, 3, 1, 1), rect(0, 4, 1, 1)];
    let parts = choose_parts(&chunks);
    assert_eq!(parts.bar, chunks[3]);
    assert_eq!(parts.hint, chunks[4]);
}

#[test]
fn the_parts_share_the_rows_of_any_screen() {
    for height in (8..80u16).chain([1000, 32767, 32768, 40000, 65000, 65535]) {
        for y in [0, 7, 65535 - height] {
            if y > 65535 - height {
                continue;
            }
            let parts = layout(rect(1, y, 30, height));
            assert_eq!(parts.title, rect(1, y, 30, 2));
            assert_eq!(parts.table, rect(1, y + 2, 30, height - 5));
            assert_eq!(parts.bar, rect(1, y + (height - 2), 30, 1));
            assert_eq!(parts.hint, rect(1, y + (height - 1), 30, 1));
        }
    }
}

#[test]
fn parts_of_a_small_screen_lie_within_it() {
    for height in 0..12u16 {
        for area in [rect(2, 1, 7, height), rect(0, u16::MAX - height, 1, height)] {
            let parts = layout(area);
            assert!(parts.table.height >= height.min(3));
            for part in [parts.title, parts.table, parts.bar, parts.hint] {
                assert_eq!(part.x, area.x);
                assert_eq!(part.width, area.width);
                assert!(part.y >= area.y);
                assert!(part.y as u32 + part.height as u32 <= area.y as u32 + area.height as u32);
            }
        }
    }
}

#[test]
fn a_frame_has_all_parts() {
    let mut app = app();
    app.status = Some("Deleting 1…".to_string());
    app.open_confirm_delete(names(&["p/a"]));
    let mut map = MouseMap::default();
    let ctx = RenderCtx { app: &app, host_short: "box", show_archived: false, archived_count: 0 };
    let frame = render(&ctx, rect(0, 0, 80, 24), &mut map);
    assert_eq!(text(&frame.title), "  ⚡ tmux :: box");
    assert_eq!(frame.table.rows.len(), 8);
    assert_eq!(text(&frame.bar), "    attach  │  rename  │  move  │  archive  │  delete  ");
    assert_eq!(text(&frame.hint), "  Deleting 1…");
    assert_eq!(frame.popup.unwrap().title, " Delete ");
    assert_eq!(map.hit_action(14, 22), Some(Action::Rename));
    assert_eq!(map.hit_action(14, 21), None);
    assert_eq!(map.hit_segment(33, 22), Some(Segment::Archive));
    assert_eq!(map.hit_action(33, 22), None);
    assert_eq!(map.hit_action(45, 22), Some(Action::Delete));
    assert_eq!(map.hit_segment(55, 22), None);

    app.status = None;
    app.cancel_prompt();
    let ctx = RenderCtx { app: &app, host_short: "box", show_archived: true, archived_count: 1 };
    let frame = render(&ctx, rect(0, 0, 80, 24), &mut map);
    assert_eq!(text(&frame.title), "  ⚡ tmux :: box   [ARCHIVED VIEW]");
    assert!(text(&frame.hint).contains("active"));
    assert!(frame.popup.is_none());
}

#[test]
fn clicks_are_traced_back_to_the_drawn_lines() {
    let app = app();
    let mut map = MouseMap::default();
    assert_eq!(map.hit_row(0, 0), None);
    assert_eq!(map.hit_action(0, 0), None);
    let table = render_table(&app);
    map.note_table(rect(0, 2, 80, 8), 3, table.line_rows);
    assert_eq!(map.hit_row(10, 3), None);
    assert_eq!(map.hit_row(10, 4), Some(1));
    assert_eq!(map.hit_row(10, 5), Some(2));
    assert_eq!(map.hit_row(10, 6), None);
    assert_eq!(map.hit_row(10, 8), Some(3));
    assert_eq!(map.hit_row(10, 9), None);
    assert_eq!(map.hit_row(0, 4), None);
    assert_eq!(map.hit_row(1, 4), Some(1));
    assert_eq!(map.hit_row(78, 4), Some(1));
    assert_eq!(map.hit_row(79, 4), None);
    assert_eq!(map.hit_marker(5, 4), Some(1));
    assert_eq!(map.hit_marker(6, 4), None);
    assert_eq!(map.hit_marker(0, 4), None);
}

#[test]
fn maps_of_tiny_or_far_tables_hold_no_lines() {
    let mut map = MouseMap::default();
    map.note_table(rect(0, 0, 1, 2), 0, vec![Some(0)]);
    assert_eq!(map.hit_row(1, 2), None);
    map.note_table(rect(0, 0, 10, 10), 99, vec![Some(0)]);
    assert_eq!(map.hit_row(1, 2), None);
    map.note_table(rect(u16::MAX, u16::MAX, u16::MAX, u16::MAX), 0, vec![Some(0)]);
    assert_eq!(map.hit_row(u16::MAX, u16::MAX), Some(0));
    assert_eq!(map.hit_row(u16::MAX - 1, u16::MAX), None);
}

#[test]
fn the_bar_stays_narrow() {
    let mut app = App::new(vec![]);
    for i in 0..1000 {
        app.picked.insert(format!("s{i}"));
    }
    let bar = render_action_bar(&app, 7, true);
    assert!(text(&bar.line).ends_with("  move 1000  │  unarchive 1000  │  delete 1000    ✓ 1000 selected"));
    assert_eq!(bar.regions[4].end, 7 + 2 + 10 + 1 + 10 + 1 + 13 + 1 + 18 + 1 + 15);
    let ends: Vec<u16> = bar.regions.iter().map(|r| r.end).collect();
    let starts: Vec<u16> = bar.regions.iter().skip(1).map(|r| r.start).collect();
    assert!(ends.iter().zip(&starts).all(|(e, s)| *e + 1 == *s));
}
