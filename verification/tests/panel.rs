//! The panel of commands above the dock.
use manto::cmd::{CommandEntry, CommandKind, CommandStatus};
use manto::ui::panel::{
    build_blocks, build_priority_rows, clip_block, clip_newest, flatten, total_rows, visible_rows,
};

fn fixture(command: &str, output_lines: &[&str], status: CommandStatus) -> CommandEntry {
    CommandEntry {
        cwd: String::new(),
        command: command.to_string(),
        output_lines: output_lines.iter().map(|line| (*line).to_string()).collect(),
        status,
        kind: CommandKind::External,
        runner: None,
    }
}

fn running_cmd(name: &str, ticks: u32) -> CommandEntry {
    let mut outputs = Vec::new();
    for i in (1..=ticks).rev() {
        outputs.push(format!("{}s", i));
    }
    let refs: Vec<&str> = outputs.iter().map(String::as_str).collect();
    fixture(name, &refs, CommandStatus::Running)
}

fn simple_cmd(name: &str, output: &str) -> CommandEntry {
    fixture(name, &[output], CommandStatus::Complete)
}

fn timer_cmd(ticks: u32) -> CommandEntry {
    running_cmd(&format!("timer {}", ticks), ticks)
}

#[test]
fn header_stays_visible_before_hiding_outputs() {
    let cmd = running_cmd("count 4", 4);
    let blocks = build_blocks(&[cmd], 40);
    let (rows, hidden) = build_priority_rows(&blocks, 3);
    assert!(hidden);
    assert_eq!(rows[0], "  ├─┬ count 4");
    assert_eq!(rows.last().unwrap(), "  │ └─ 1s (running)");
}

#[test]
fn result_shown_after_header() {
    let cmd = simple_cmd("echo ok", "ok");
    let blocks = build_blocks(&[cmd], 40);
    let (rows, hidden) = build_priority_rows(&blocks, 2);
    assert!(!hidden);
    assert_eq!(rows[0], "  ├─┬ echo ok");
    assert_eq!(rows[1], "  │ └─ ok");
}

#[test]
fn older_header_appears_when_space_allows() {
    let older = simple_cmd("echo ok", "ok");
    let latest = running_cmd("count 3", 3);
    let blocks = build_blocks(&[older, latest], 40);
    let (rows, hidden) = build_priority_rows(&blocks, 5);
    assert!(!hidden);
    assert_eq!(rows[0], "  ├─┬ echo ok");
    assert_eq!(rows[1], "  ├─┬ count 3");
    assert_eq!(rows[2], "  │ ├─ 3s");
    assert_eq!(rows[3], "  │ ├─ 2s");
    assert_eq!(rows[4], "  │ └─ 1s (running)");
}

#[test]
fn elision_between_hidden_intermediates_and_result() {
    let cmd = running_cmd("count 5", 5);
    let blocks = build_blocks(&[cmd], 40);
    let (rows, hidden) = build_priority_rows(&blocks, 4);
    assert!(hidden);
    assert_eq!(rows[0], "  ├─┬ count 5");
    assert_eq!(rows[1], "  │ ├─ ...");
    assert_eq!(rows[3], "  │ └─ 1s (running)");
}

#[test]
fn clip_keeps_result_and_hides_old_intermediates() {
    let cmd = running_cmd("count 5", 5);
    let block = build_blocks(&[cmd], 40).remove(0);
    let clipped = clip_block(&block, 4).unwrap();
    let (rows, hidden) = build_priority_rows(&[clipped], 4);
    assert!(!hidden, "clipped is already within budget");
    assert_eq!(rows[0], "  ├─┬ count 5");
    assert!(rows.iter().any(|r| r == "  │ ├─ ..."));
    assert_eq!(rows.last().unwrap(), "  │ └─ 1s (running)");
}

#[test]
fn clip_newest_removes_most_recent_first() {
    let older = simple_cmd("echo ok", "ok");
    let newer = running_cmd("count 3", 3);
    let blocks = build_blocks(&[older, newer], 40);
    let clipped = clip_newest(&blocks, 2);
    let (rows, _) = build_priority_rows(&clipped, 6);
    assert_eq!(rows[0], "  ├─┬ echo ok");
    assert_eq!(rows[1], "  │ └─ ok");
    assert_eq!(rows[2], "  ├─┬ count 3");
    assert_eq!(rows[3], "  │ └─ 1s (running)");
}

#[test]
fn scroll_reveals_older_command() {
    let older = fixture("test", &["command not found"], CommandStatus::Complete);
    let newer = running_cmd("count 4", 4);
    let blocks = build_blocks(&[older, newer], 40);

    let clipped = clip_newest(&blocks, 2);
    let flat = flatten(&clipped);
    let start = flat.len().saturating_sub(4);
    let mut rows: Vec<String> = flat[start..].iter().map(|r| r.text.clone()).collect();
    if let Some(first) = flat.get(start) {
        if !rows.is_empty() {
            rows[0] = first.header.clone();
        }
    }
    assert_eq!(rows[0], "  ├─┬ test");
    assert_eq!(rows[1], "  ├─┬ count 4");

    let clipped2 = clip_newest(&blocks, 3);
    let flat2 = flatten(&clipped2);
    let start2 = flat2.len().saturating_sub(4);
    let mut rows2: Vec<String> = flat2[start2..].iter().map(|r| r.text.clone()).collect();
    if let Some(first) = flat2.get(start2) {
        if !rows2.is_empty() {
            rows2[0] = first.header.clone();
        }
    }
    assert_eq!(rows2[0], "  ├─┬ test");
    assert_eq!(rows2[1], "  │ └─ command not found");
}

#[test]
fn soberano_header_antes_de_ocultar_outputs() {
    let cmd = timer_cmd(4);
    let blocks = build_blocks(&[cmd], 40);
    let (rows, hidden) = build_priority_rows(&blocks, 3);
    assert!(hidden);
    assert_eq!(rows[0], "  ├─┬ timer 4");
    assert_eq!(rows.last().unwrap(), "  │ └─ 1s (running)");
}

#[test]
fn resultado_exibido_apos_cabecalho() {
    let cmd = simple_cmd("echo ok", "ok");
    let blocks = build_blocks(&[cmd], 40);
    let (rows, hidden) = build_priority_rows(&blocks, 2);
    assert!(!hidden);
    assert_eq!(rows[0], "  ├─┬ echo ok");
    assert_eq!(rows[1], "  │ └─ ok");
}

#[test]
fn cabecalho_antigo_aparece_quando_ha_espaco() {
    let older = simple_cmd("echo ok", "ok");
    let latest = timer_cmd(3);
    let blocks = build_blocks(&[older, latest], 40);
    let (rows, hidden) = build_priority_rows(&blocks, 5);
    assert!(!hidden);
    assert_eq!(rows[0], "  ├─┬ echo ok");
    assert_eq!(rows[1], "  ├─┬ timer 3");
    assert_eq!(rows[2], "  │ ├─ 3s");
    assert_eq!(rows[3], "  │ ├─ 2s");
    assert_eq!(rows[4], "  │ └─ 1s (running)");
}

#[test]
fn elision_entre_intermediarios_ocultos_e_resultado() {
    let cmd = timer_cmd(5);
    let blocks = build_blocks(&[cmd], 40);
    let (rows, hidden) = build_priority_rows(&blocks, 4);
    assert!(hidden);
    assert_eq!(rows[0], "  ├─┬ timer 5");
    assert_eq!(rows[1], "  │ ├─ ...");
    assert_eq!(rows[3], "  │ └─ 1s (running)");
}

#[test]
fn clip_mantem_resultado_e_oculta_intermediarios_antigos() {
    let cmd = timer_cmd(5);
    let block = build_blocks(&[cmd], 40).remove(0);
    let clipped = clip_block(&block, 4).unwrap();
    let (rows, hidden) = build_priority_rows(&[clipped], 4);
    assert!(!hidden, "clipped já está dentro do orçamento");
    assert_eq!(rows[0], "  ├─┬ timer 5");
    assert!(rows.iter().any(|r| r == "  │ ├─ ..."));
    assert_eq!(rows.last().unwrap(), "  │ └─ 1s (running)");
}

#[test]
fn clip_newest_remove_mais_recentes_primeiro() {
    let older = simple_cmd("echo ok", "ok");
    let newer = timer_cmd(3);
    let blocks = build_blocks(&[older, newer], 40);
    let clipped = clip_newest(&blocks, 2);
    let (rows, _) = build_priority_rows(&clipped, 6);
    assert_eq!(rows[0], "  ├─┬ echo ok");
    assert_eq!(rows[1], "  │ └─ ok");
    assert_eq!(rows[2], "  ├─┬ timer 3");
    assert_eq!(rows[3], "  │ └─ 1s (running)");
}

#[test]
fn scroll_revela_comando_mais_antigo() {
    let older = simple_cmd("test", "command not found");
    let newer = timer_cmd(4);
    let blocks = build_blocks(&[older, newer], 40);

    let clipped = clip_newest(&blocks, 2);
    let flat = flatten(&clipped);
    let start = flat.len().saturating_sub(4);
    let mut rows: Vec<String> = flat[start..].iter().map(|r| r.text.clone()).collect();
    if let Some(first) = flat.get(start) {
        if !rows.is_empty() {
            rows[0] = first.header.clone();
        }
    }
    assert_eq!(rows[0], "  ├─┬ test");
    assert_eq!(rows[1], "  ├─┬ timer 4");

    let clipped2 = clip_newest(&blocks, 3);
    let flat2 = flatten(&clipped2);
    let start2 = flat2.len().saturating_sub(4);
    let mut rows2: Vec<String> = flat2[start2..].iter().map(|r| r.text.clone()).collect();
    if let Some(first) = flat2.get(start2) {
        if !rows2.is_empty() {
            rows2[0] = first.header.clone();
        }
    }
    assert_eq!(rows2[0], "  ├─┬ test");
    assert_eq!(rows2[1], "  │ └─ command not found");
}

#[test]
fn nothing_is_clipped_to_no_rows() {
    let blocks = build_blocks(&[simple_cmd("echo ok", "ok")], 40);
    assert!(clip_block(&blocks[0], 0).is_none());
    let (rows, hidden) = build_priority_rows(&blocks, 0);
    assert!(rows.is_empty() && !hidden);
    assert_eq!(total_rows(&blocks), 2);
}

#[test]
fn rows_on_the_screen_never_exceed_the_area() {
    let blocks = build_blocks(&[running_cmd("count 9", 9), simple_cmd("echo ok", "ok")], 40);
    for area in 1..15 {
        for scroll in 0..12 {
            assert!(visible_rows(&blocks, area, scroll).len() <= area);
        }
    }
}
