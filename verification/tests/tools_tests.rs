use vea::flowchart::generator::{generate_graph, get_label, prep_code, split_by_labels};
use vea::flowchart::graph::Graph;
use vea::launcher::{build_enabled, launcher_step, panel_labels, play_enabled, LauncherAction, LauncherInput};
use vea::lsp::{get_hovered_token, get_opcode_docs, hover_text, is_numeric, update_range, TextRange};
use vea::runtime::debugger::{DebugInput, Debugger, Highlight, Wheel};
use vea::runtime::emulator::Emulator;
use vea::shared::cartridge::Cartridge;
use vea::shared::manifest::{Manifest, Metadata};

#[test]
fn node_ids_count_in_letters() {
    assert_eq!(Graph::node_id(0), "A");
    assert_eq!(Graph::node_id(25), "Z");
    assert_eq!(Graph::node_id(26), "AA");
    assert_eq!(Graph::node_id(27), "AB");
    assert_eq!(Graph::node_id(701), "ZZ");
    assert_eq!(Graph::node_id(702), "AAA");
}

#[test]
fn node_id_roundtrip() {
    for n in [0usize, 1, 25, 26, 51, 52, 700, 701, 702, 18277, 18278] {
        assert_eq!(Graph::id_to_node(Graph::node_id(n).as_str()), n);
    }
}

#[test]
fn letters_roundtrip_through_node_numbers() {
    for id in ["A", "Z", "AA", "AZ", "BA", "ZZ", "AAA", "QWE"] {
        assert_eq!(Graph::node_id(Graph::id_to_node(id)), id);
    }
    assert_eq!(Graph::id_to_node("ZZ"), 701);
}

#[test]
fn graph_builds_dot_text() {
    let mut g = Graph::new();
    let a = g.add_node("start", "mov 1 !A\njmp $end");
    let b = g.add_node("end", "hlt");
    assert_eq!(a, "A");
    assert_eq!(b, "B");
    g.connect_nodes(&a, &b);
    g.connect_nodes(&a, &b);
    assert_eq!(g.node_count(), 2);
    let text = g.build();
    assert!(text.starts_with("digraph {\n\trankdir=LR\n\tsplines=ortho\n\tnode [shape=none margin=0 fontname=monospace]\n\n"));
    assert!(text.ends_with("\tA -> B\n}"));
    assert_eq!(text.matches(" -> ").count(), 1);
    assert!(text.contains("<b>start</b>"));
    assert!(text.contains("mov 1 !A<br ALIGN=\"LEFT\"/>jmp $end<br ALIGN=\"LEFT\"/>"));
}

#[test]
fn node_code_is_escaped() {
    let mut g = Graph::new();
    g.add_node("n", "mov [?LL1] &3");
    let text = g.build();
    assert!(text.contains("mov &#91;?LL1&#93; &amp;3"));
}

#[test]
fn prep_code_drops_comments_and_blank_lines() {
    assert_eq!(prep_code("; header\nmov 1 !A ; set\n\n   hlt  \n".to_string()), "mov 1 !A\nhlt");
}

#[test]
fn code_splits_at_labels() {
    let parts = split_by_labels("mov 1 !A\nloop:\nadd !A 1\nend:\nhlt".to_string());
    assert_eq!(parts, vec!["mov 1 !A", "loop:\nadd !A 1", "end:\nhlt"]);
}

#[test]
fn labels_name_their_blocks() {
    assert_eq!(get_label("loop:\nadd !A 1".to_string()), ("loop".to_string(), "loop:\nadd !A 1".to_string()));
    assert_eq!(get_label("mov 1 !A".to_string()), ("start".to_string(), "mov 1 !A".to_string()));
}

#[test]
fn generated_graph_follows_jumps_and_fallthrough() {
    let g = generate_graph("mov 1 !A\nloop:\nadd !A 1\njnz !A $loop\nend:\nhlt".to_string()).unwrap();
    assert_eq!(g.node_count(), 3);
    let text = g.build();
    assert!(text.contains("\tA -> B\n"));
    assert!(text.contains("\tB -> B\n"));
    assert!(text.contains("\tB -> C\n"));
    assert!(!text.contains("\tC -> "));
}

#[test]
fn jmp_blocks_do_not_fall_through() {
    let g = generate_graph("start:\njmp $end\nmid:\nnoop\nend:\nret".to_string()).unwrap();
    let text = g.build();
    assert!(text.contains("\tA -> C\n"));
    assert!(!text.contains("\tA -> B\n"));
    assert!(text.contains("\tB -> C\n"));
}

#[test]
fn numbers_are_numeric() {
    assert!(is_numeric("42"));
    assert!(is_numeric("  7 "));
    assert!(is_numeric("18446744073709551615"));
    assert!(!is_numeric("18446744073709551616"));
    assert!(!is_numeric("0x10"));
    assert!(!is_numeric(""));
}

#[test]
fn hovered_token_and_range() {
    let t = get_hovered_token("mov 12 $0".to_string(), 3, 5);
    assert!(!t.is_errored);
    assert_eq!(t.token, "12");
    assert_eq!(t.range, TextRange { start_line: 3, start_character: 4, end_line: 3, end_character: 6 });
    let edge = get_hovered_token("mov 12".to_string(), 0, 3);
    assert_eq!(edge.token, "mov");
    let past = get_hovered_token("mov 12".to_string(), 0, 20);
    assert!(past.is_errored);
    assert_eq!(past.token, "");
}

#[test]
fn ranges_move_by_deltas() {
    let r = TextRange { start_line: 1, start_character: 2, end_line: 3, end_character: 4 };
    assert_eq!(update_range(r, 0, 0, 0, -1), TextRange { start_line: 1, start_character: 2, end_line: 3, end_character: 3 });
    assert_eq!(update_range(r, 1, -2, 0, 5), TextRange { start_line: 2, start_character: 0, end_line: 3, end_character: 9 });
}

#[test]
fn instructions_have_docs() {
    assert!(get_opcode_docs("mov").unwrap().starts_with("### Mov"));
    assert!(get_opcode_docs("sub").unwrap().starts_with("### Sub"));
    assert!(get_opcode_docs("trunc").unwrap().starts_with("### Trunc"));
    assert_eq!(get_opcode_docs("hlt"), None);
}

#[test]
fn hover_shows_docs_numbers_and_labels() {
    let text = "loop:\nmov 12 $0 ; comment\nadd &300 &1\nfoo";
    let (c, r) = hover_text(text, 1, 1).unwrap();
    assert!(c.starts_with("### Mov"));
    assert_eq!(r, TextRange { start_line: 1, start_character: 0, end_line: 1, end_character: 3 });
    let (c, _) = hover_text(text, 1, 5).unwrap();
    assert_eq!(c, "### 12\n`Immediate`");
    let (c, _) = hover_text(text, 2, 5).unwrap();
    assert_eq!(c, "### &300\n`LongImmediate`");
    let (c, r) = hover_text("mov ^5 $0", 4, 5).unwrap();
    assert_eq!(c, "### ^5\n`LongerImmediate`");
    assert_eq!(r, TextRange { start_line: 4, start_character: 4, end_line: 4, end_character: 6 });
    let (c, r) = hover_text(text, 0, 2).unwrap();
    assert_eq!(c, "loop");
    assert_eq!(r, TextRange { start_line: 0, start_character: 0, end_line: 0, end_character: 4 });
    assert_eq!(hover_text(text, 1, 40), None);
    let (c, _) = hover_text(text, 9, 0).unwrap();
    assert_eq!(c, "foo");
    assert_eq!(hover_text("; only a comment", 0, 3), None);
}

fn debugger() -> Debugger {
    let mut cartridge = Cartridge::new(Manifest::default("test".to_string()));
    cartridge.entry_bytecode = vec![0x02, 0x01];
    Debugger::new(Emulator::new(cartridge))
}

fn still(x: i32, y: i32) -> DebugInput {
    DebugInput { mouse_x: x, mouse_y: y, wheel: Wheel::Still, left_click: false, space_pressed: false }
}

#[test]
fn debugger_starts_paused_and_steps_on_space() {
    let mut d = debugger();
    assert!(d.paused);
    assert!(!d.update(still(0, 0)));
    assert!(d.update(DebugInput { space_pressed: true, ..still(0, 0) }));
}

#[test]
fn debugger_scrolls_panels() {
    let mut d = debugger();
    d.update(DebugInput { wheel: Wheel::Down, ..still(800, 100) });
    assert_eq!(d.ram_scroll, 3);
    d.update(DebugInput { wheel: Wheel::Up, ..still(800, 100) });
    assert_eq!(d.ram_scroll, 0);
    d.update(DebugInput { wheel: Wheel::Up, ..still(800, 100) });
    assert_eq!(d.ram_scroll, 0);
    // The ROM holds two bytes: a single line, nothing to scroll.
    d.update(DebugInput { wheel: Wheel::Down, ..still(800, 600) });
    assert_eq!(d.rom_scroll, 0);
    // The wheel over the screen scrolls nothing.
    d.update(DebugInput { wheel: Wheel::Down, ..still(100, 100) });
    assert_eq!(d.ram_scroll, 0);
}

#[test]
fn debugger_toggles_input_buttons() {
    let mut d = debugger();
    d.update(DebugInput { left_click: true, ..still(10, 890) });
    assert_eq!(d.input_toggles, 0x80);
    d.update(DebugInput { left_click: true, ..still(8 + 7 * 59, 890) });
    assert_eq!(d.input_toggles, 0x81);
    d.update(DebugInput { left_click: true, ..still(10, 890) });
    assert_eq!(d.input_toggles, 0x01);
    // In the gap between two buttons.
    d.update(DebugInput { left_click: true, ..still(64, 890) });
    assert_eq!(d.input_toggles, 0x01);
    let buttons = d.toggle_buttons();
    assert_eq!(buttons.len(), 8);
    assert_eq!(buttons[0].label, "UP");
    assert_eq!(buttons[7].label, "SPACE");
    assert!(buttons[7].on);
    assert!(!buttons[0].on);
}

#[test]
fn debugger_finds_hovered_bytes() {
    let mut d = debugger();
    // RAM panel: first byte of the second line, third column.
    d.update(still(768 + 64 + 2 * 24, 18 + 18 + 1));
    assert_eq!(d.hovered_byte, Some(61440 + 8 + 2));
    // ROM panel: first byte.
    d.update(still(768 + 64, 480 + 18));
    assert_eq!(d.hovered_byte, Some(61440 + 2000 + 1000));
    // Past the end of ROM.
    d.update(still(768 + 64 + 3 * 24, 480 + 18));
    assert_eq!(d.hovered_byte, None);
    // Over the address column.
    d.update(still(770, 40));
    assert_eq!(d.hovered_byte, None);
}

#[test]
fn debugger_hands_toggles_to_the_game_on_vsync() {
    let mut d = debugger();
    d.update(DebugInput { left_click: true, ..still(10, 890) });
    assert_eq!(d.input_toggles, 0x80);
    d.on_vsync();
    assert_eq!(d.input_toggles, 0);
    assert_eq!(d.emulator.memory.peek(61440 + 2000 - 2, 2), vec![0x80, 0x80]);
    // Armed again: held, but no longer newly pressed.
    d.update(DebugInput { left_click: true, ..still(10, 890) });
    d.on_vsync();
    assert_eq!(d.emulator.memory.peek(61440 + 2000 - 2, 2), vec![0x80, 0x00]);
    // Nothing armed: nothing held or pressed.
    d.on_vsync();
    assert_eq!(d.emulator.memory.peek(61440 + 2000 - 2, 2), vec![0x00, 0x00]);
    assert!(!d.emulator.update_texture);
}

#[test]
fn emulator_hands_out_a_frame_once_per_vsync() {
    let mut d = debugger();
    assert_eq!(d.emulator.take_frame(), None);
    assert_eq!(d.emulator.step(), Ok(()));
    assert!(d.emulator.update_texture);
    let frame = d.emulator.take_frame().unwrap();
    assert_eq!(frame.len(), 61440 * 4);
    assert!(!d.emulator.update_texture);
    assert_eq!(d.emulator.take_frame(), None);
}

#[test]
fn debugger_register_texts() {
    let mut d = debugger();
    d.emulator.memory.write_reg(vea::shared::registers::Registers::G1, 255);
    let texts = d.register_texts();
    assert_eq!(texts.len(), 20);
    assert_eq!(texts[0].text, "REGISTERS");
    assert_eq!(texts[2].text, " A: 00h   0");
    assert_eq!((texts[2].x, texts[2].y), (8, 760));
    assert_eq!(texts[6].text, "G1: FFh 255");
    assert_eq!((texts[6].x, texts[6].y), (584, 760));
    assert_eq!((texts[7].x, texts[7].y), (8, 778));
    assert_eq!(texts[12].text, "PC : 000000000000FBB8h");
    assert_eq!((texts[15].x, texts[15].y), (8, 836));
    assert_eq!(texts[18].text, "SP : 000000000000F7D0h");
}

#[test]
fn debugger_memory_panels() {
    let mut d = debugger();
    d.update(still(768 + 64, 480 + 18));
    let rom = d.rom_panel(768 + 64, 480 + 18);
    assert_eq!(rom.title, "ROM  (2 bytes, scroll: 0)");
    assert_eq!(rom.rows.len(), 1);
    assert_eq!(rom.rows[0].label, "00FBB8: ");
    assert_eq!(rom.rows[0].y, 498);
    assert_eq!(rom.rows[0].cells.len(), 2);
    assert_eq!(rom.rows[0].cells[0].text, "02");
    assert_eq!(rom.rows[0].cells[0].highlight, Highlight::Pc);
    assert_eq!(rom.rows[0].cells[1].text, "01");
    assert_eq!(rom.rows[0].cells[1].x, 768 + 64 + 24);
    assert_eq!(rom.rows[0].cells[1].highlight, Highlight::Plain);
    assert_eq!(rom.tooltip, Some(" 0xFBB8".to_string()));
    let ram = d.ram_panel(768 + 64, 480 + 18);
    assert_eq!(ram.title, "RAM  (2000 bytes, scroll: 0)");
    assert_eq!(ram.rows.len(), 25);
    assert_eq!(ram.rows[1].label, "00F008: ");
    assert!(ram.rows[0].cells[0].zero);
    assert_eq!(ram.tooltip, None);
}

#[test]
fn launcher_selection_and_actions() {
    let idle = LauncherInput { left_click: false, right_down: false, over_build: false, over_play: false, hovered_game: None, selected_built: false };
    assert!(!build_enabled(None));
    assert!(build_enabled(Some(0)));
    assert!(!play_enabled(Some(0), false));
    assert!(play_enabled(Some(0), true));
    assert_eq!(launcher_step(None, LauncherInput { left_click: true, hovered_game: Some(2), ..idle }), (Some(2), LauncherAction::Nothing));
    assert_eq!(launcher_step(None, LauncherInput { left_click: true, over_build: true, ..idle }), (None, LauncherAction::Nothing));
    assert_eq!(launcher_step(Some(1), LauncherInput { left_click: true, over_build: true, ..idle }), (Some(1), LauncherAction::Build(1)));
    assert_eq!(launcher_step(Some(1), LauncherInput { left_click: true, over_play: true, ..idle }), (Some(1), LauncherAction::Nothing));
    assert_eq!(launcher_step(Some(1), LauncherInput { left_click: true, over_play: true, selected_built: true, ..idle }), (Some(1), LauncherAction::Play(1)));
    assert_eq!(launcher_step(Some(1), LauncherInput { right_down: true, ..idle }), (None, LauncherAction::Nothing));
}

#[test]
fn launcher_panel_labels() {
    let mut m = Manifest::default("Cool".to_string());
    assert_eq!(panel_labels(&m), ("Cool".to_string(), "v1.0".to_string()));
    m.metadata = Some(Metadata { name: None, version: None });
    assert_eq!(panel_labels(&m), ("Unnamed game".to_string(), "v1.0.0".to_string()));
    m.metadata = None;
    assert_eq!(panel_labels(&m), ("Unnamed game".to_string(), "v1.0.0".to_string()));
}
