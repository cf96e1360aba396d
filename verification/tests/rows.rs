use lsof_table::text::{chars_of, find_first, trim_bounds};
use lsof_table::{Column, Offsets, Row, SliceError};

const HEADER: &str =
    "COMMAND     PID     USER   FD      TYPE             DEVICE   SIZE/OFF    NODE NAME";
const GOOD: &str =
    "loginwind    89 jjaggars  cwd       DIR                1,4        896       2 /";
const RAGGED: &str = "UserEvent   269 jjaggars    6u     unix 0x20369f28a64f7ddd        0t0         ->0x20369f28a64f7d15";

fn table() -> Offsets {
    Offsets::from_str(HEADER).unwrap()
}

fn row(cells: [&str; 9]) -> Row {
    Row {
        command: cells[0].to_string(),
        pid: cells[1].to_string(),
        user: cells[2].to_string(),
        fd: cells[3].to_string(),
        type_: cells[4].to_string(),
        device: cells[5].to_string(),
        size_off: cells[6].to_string(),
        node: cells[7].to_string(),
        name: cells[8].to_string(),
    }
}

#[test]
fn parse_line_cuts_a_regular_line() {
    let r = table().parse_line(GOOD).unwrap();
    assert_eq!(r, row(["loginwind", "89", "jjaggars", "cwd", "DIR", "1,4", "896", "2", "/"]));
}

#[test]
fn parse_line_keeps_the_overrun_of_a_wide_value() {
    let r = table().parse_line(RAGGED).unwrap();
    assert_eq!(
        r,
        row([
            "UserEvent",
            "269",
            "jjaggars",
            "6u",
            "unix",
            "0x20369f28a64f7ddd",
            "0t0",
            "",
            "->0x20369f28a64f7d15",
        ])
    );
}

#[test]
fn parse_line_cuts_by_position_not_by_content() {
    let line = "bash\t    4242 root      txt       REG                8,1     \t1037        42  /bin/bash  x  ";
    let r = table().parse_line(line).unwrap();
    assert_eq!(
        r,
        row(["bash\t    4", "242 r", "oot", "txt", "REG", "8,1", "\t1037", "42", "/bin/bash  x"])
    );
}

#[test]
fn parse_line_trims_spaces_only() {
    let line =
        "tabs          7    \troot  txt\t      REG                8,1       1037      42   /bin/bash x  ";
    let r = table().parse_line(line).unwrap();
    assert_eq!(
        r,
        row(["tabs", "7", "\troot", "txt\t", "REG", "8,1", "1037", "42", "/bin/bash x"])
    );
}

#[test]
fn parse_line_counts_characters() {
    let line =
        "caf\u{e9}          7    ren\u{e9}e   txt      REG                8,1       1037      42 /opt/caf\u{e9}";
    let r = table().parse_line(line).unwrap();
    assert_eq!(
        r,
        row(["caf\u{e9}", "7", "ren\u{e9}e", "txt", "REG", "8,1", "1037", "42", "/opt/caf\u{e9}"])
    );
}

#[test]
fn parse_line_twice_gives_the_same_row() {
    let offsets = table();
    assert_eq!(offsets.parse_line(GOOD), offsets.parse_line(GOOD));
    assert_eq!(offsets.parse_line(RAGGED), offsets.parse_line(RAGGED));
    assert_eq!(offsets.parse_line("short"), offsets.parse_line("short"));
}

#[test]
fn parse_line_takes_every_line_that_reaches_name() {
    let offsets = table();
    let line = "init          1     root   cwd      DIR                8,1       4096       2 ";
    assert_eq!(line.len(), 78);
    assert_eq!(
        offsets.parse_line(line),
        Ok(row(["init", "1", "root", "cwd", "DIR", "8,1", "4096", "2", ""]))
    );
    let blank = " ".repeat(78);
    assert_eq!(offsets.parse_line(&blank), Ok(row([""; 9])));
    let filler = "x".repeat(200);
    assert!(offsets.parse_line(&filler).is_ok());
}

#[test]
fn parse_line_refuses_a_line_that_stops_short_of_name() {
    let offsets = table();
    let line = "init          1     root   cwd      DIR                8,1       4096       2";
    assert_eq!(line.len(), 77);
    assert_eq!(offsets.parse_line(line), Err(SliceError { column: Column::Name }));
}

#[test]
fn parse_line_names_the_first_cell_out_of_reach() {
    let offsets = table();
    let full = "x".repeat(78);
    let expected = [
        (0, Column::Command),
        (9, Column::Command),
        (10, Column::Pid),
        (14, Column::Pid),
        (15, Column::User),
        (23, Column::User),
        (24, Column::Fd),
        (29, Column::Fd),
        (30, Column::Type),
        (38, Column::Type),
        (39, Column::Device),
        (57, Column::Device),
        (58, Column::SizeOff),
        (68, Column::SizeOff),
        (69, Column::Node),
        (76, Column::Node),
        (77, Column::Name),
    ];
    for (len, column) in expected {
        assert_eq!(offsets.parse_line(&full[..len]), Err(SliceError { column }), "length {len}");
    }
    assert!(offsets.parse_line(&full).is_ok());
}

#[test]
fn parse_line_refuses_a_table_out_of_order() {
    let offsets = Offsets::from_str("NAME NODE SIZE/OFF DEVICE TYPE FD USER  PID").unwrap();
    let line = "y".repeat(60);
    assert_eq!(offsets.parse_line(&line), Err(SliceError { column: Column::User }));
}

#[test]
fn parse_line_with_offsets_at_the_limit() {
    let offsets = Offsets {
        command: 0,
        pid: 0,
        user: usize::MAX,
        fd: 0,
        type_: 0,
        device: 0,
        size_off: 0,
        node: 0,
        name: 0,
    };
    assert_eq!(offsets.parse_line("0123456789"), Err(SliceError { column: Column::User }));
}

#[test]
fn parse_line_ignores_the_command_offset() {
    let mut offsets = table();
    offsets.command = 4;
    let r = offsets.parse_line(GOOD).unwrap();
    assert_eq!(r.command, "loginwind");
}

#[test]
fn find_first_gives_the_leftmost_place() {
    let hay: Vec<char> = "abcabcabd".chars().collect();
    let at = |needle: &str| {
        let needle: Vec<char> = needle.chars().collect();
        find_first(&hay, &needle)
    };
    assert_eq!(at("abc"), Some(0));
    assert_eq!(at("abd"), Some(6));
    assert_eq!(at("bca"), Some(1));
    assert_eq!(at("d"), Some(8));
    assert_eq!(at(""), Some(0));
    assert_eq!(at("abcabcabd"), Some(0));
    assert_eq!(at("abcabcabda"), None);
    assert_eq!(at("ca "), None);
    assert_eq!(find_first(&[], &['a']), None);
    assert_eq!(find_first(&[], &[]), Some(0));
}

#[test]
fn trim_bounds_cuts_the_spaces_at_both_ends() {
    let s: Vec<char> = "ab   cd e   f".chars().collect();
    assert_eq!(trim_bounds(&s, 0, 13), (0, 13));
    assert_eq!(trim_bounds(&s, 2, 12), (5, 9));
    assert_eq!(trim_bounds(&s, 2, 5), (5, 5));
    assert_eq!(trim_bounds(&s, 4, 4), (4, 4));
    assert_eq!(trim_bounds(&s, 7, 13), (8, 13));
    assert_eq!(trim_bounds(&s, 1, 3), (1, 2));
    let t: Vec<char> = " \t x\n ".chars().collect();
    assert_eq!(trim_bounds(&t, 0, 6), (1, 5));
}

#[test]
fn chars_of_gives_each_character() {
    assert_eq!(chars_of(""), Vec::<char>::new());
    assert_eq!(chars_of("a\u{e9}\u{4e2d} z"), vec!['a', '\u{e9}', '\u{4e2d}', ' ', 'z']);
}
