use dice_roll_parser::{parse_roll, DiceRollInstance, DiceRollRequest};

const TOP: &str = "╔═════════════════╗\n";
const HEADERS: &str = "\n╠══════════╤══════╣\n║  rolls   │ sum  ║\n╟──────────┼──────╢\n";
const BOTTOM: &str = "\n╚══════════╧══════╝";

fn table(expression: &str, rolls: &str, sum: &str) -> String {
    format!("{TOP}║{expression}║{HEADERS}║{rolls}│{sum}║{BOTTOM}")
}

fn fenced(tables: &[String]) -> String {
    format!("```{}```", tables.join("``````"))
}

fn roll(
    number_of_dice: usize,
    size_of_dice: usize,
    modifier: isize,
    dice_rolls: &[usize],
    total: usize,
) -> DiceRollInstance {
    DiceRollInstance {
        number_of_dice,
        size_of_dice,
        modifier,
        dice_rolls: dice_rolls.to_vec(),
        total,
    }
}

fn rolls_of(message: &str) -> Option<Vec<DiceRollInstance>> {
    parse_roll(message.to_string()).map(|request| request.rolls)
}

#[test]
fn total_example() {
    let input = "```╔═════════════════╗\n║    1d10     ║\n╠══════════╤══════╣\n║  rolls   │ sum  ║\n╟──────────┼──────╢\n║  6 3 2   │ [11] ║\n╚══════════╧══════╝```";
    assert!(parse_roll(input.to_string()).is_some());
    let input2 = "```╔═════════════════╗
║     2d10+20     ║
╠══════════╤══════╣
║  rolls   │ sum  ║
╟──────────┼──────╢
║ 5 10 20  │ [35] ║
╚══════════╧══════╝```
```╔═════════════════╗
║     2d10+20     ║
╠══════════╤══════╣
║  rolls   │ sum  ║
╟──────────┼──────╢
║  5 5 20  │ [30] ║
╚══════════╧══════╝```
```╔═════════════════╗
║     2d10+20     ║
╠══════════╤══════╣
║  rolls   │ sum  ║
╟──────────┼──────╢
║  3 2 20  │ [25] ║
╚══════════╧══════╝```
```╔═════════════════╗
║     2d10+20     ║
╠══════════╤══════╣
║  rolls   │ sum  ║
╟──────────┼──────╢
║  9 4 20  │ [33] ║
╚══════════╧══════╝```
```╔═════════════════╗
║     2d10+20     ║
╠══════════╤══════╣
║  rolls   │ sum  ║
╟──────────┼──────╢
║  2 9 20  │ [31] ║
╚══════════╧══════╝```
```╔═════════════════╗
║     2d10+20     ║
╠══════════╤══════╣
║  rolls   │ sum  ║
╟──────────┼──────╢
║  6 2 20  │ [28] ║
╚══════════╧══════╝```
```╔═════════════════╗
║     2d10+20     ║
╠══════════╤══════╣
║  rolls   │ sum  ║
╟──────────┼──────╢
║  9 7 20  │ [36] ║
╚══════════╧══════╝```
```╔═════════════════╗
║     2d10+20     ║
╠══════════╤══════╣
║  rolls   │ sum  ║
╟──────────┼──────╢
║ 10 6 20  │ [36] ║
╚══════════╧══════╝```
```╔═════════════════╗
║     2d10+20     ║
╠══════════╤══════╣
║  rolls   │ sum  ║
╟──────────┼──────╢
║  3 7 20  │ [30] ║
╚══════════╧══════╝```";
    assert!(parse_roll(input2.to_string()).is_none());
}

#[test]
fn one_table_without_modifier() {
    let input = "```╔═════════════════╗\n║    1d10     ║\n╠══════════╤══════╣\n║  rolls   │ sum  ║\n╟──────────┼──────╢\n║  6 3 2   │ [11] ║\n╚══════════╧══════╝```";
    assert_eq!(
        parse_roll(input.to_string()),
        Some(DiceRollRequest { rolls: vec![roll(1, 10, 0, &[6, 3, 2], 11)] })
    );
}

#[test]
fn one_table_with_modifier() {
    let input = "```╔═════════════════╗\n║     2d10+20     ║\n╠══════════╤══════╣\n║  rolls   │ sum  ║\n╟──────────┼──────╢\n║ 5 10 20  │ [35] ║\n╚══════════╧══════╝```";
    assert_eq!(rolls_of(input), Some(vec![roll(2, 10, 20, &[5, 10], 35)]));
}

#[test]
fn nine_tables_with_a_line_end_between_their_fences() {
    let input2 = "```╔═════════════════╗
║     2d10+20     ║
╠══════════╤══════╣
║  rolls   │ sum  ║
╟──────────┼──────╢
║ 5 10 20  │ [35] ║
╚══════════╧══════╝```
```╔═════════════════╗
║     2d10+20     ║
╠══════════╤══════╣
║  rolls   │ sum  ║
╟──────────┼──────╢
║  5 5 20  │ [30] ║
╚══════════╧══════╝```
```╔═════════════════╗
║     2d10+20     ║
╠══════════╤══════╣
║  rolls   │ sum  ║
╟──────────┼──────╢
║  3 2 20  │ [25] ║
╚══════════╧══════╝```
```╔═════════════════╗
║     2d10+20     ║
╠══════════╤══════╣
║  rolls   │ sum  ║
╟──────────┼──────╢
║  9 4 20  │ [33] ║
╚══════════╧══════╝```
```╔═════════════════╗
║     2d10+20     ║
╠══════════╤══════╣
║  rolls   │ sum  ║
╟──────────┼──────╢
║  2 9 20  │ [31] ║
╚══════════╧══════╝```
```╔═════════════════╗
║     2d10+20     ║
╠══════════╤══════╣
║  rolls   │ sum  ║
╟──────────┼──────╢
║  6 2 20  │ [28] ║
╚══════════╧══════╝```
```╔═════════════════╗
║     2d10+20     ║
╠══════════╤══════╣
║  rolls   │ sum  ║
╟──────────┼──────╢
║  9 7 20  │ [36] ║
╚══════════╧══════╝```
```╔═════════════════╗
║     2d10+20     ║
╠══════════╤══════╣
║  rolls   │ sum  ║
╟──────────┼──────╢
║ 10 6 20  │ [36] ║
╚══════════╧══════╝```
```╔═════════════════╗
║     2d10+20     ║
╠══════════╤══════╣
║  rolls   │ sum  ║
╟──────────┼──────╢
║  3 7 20  │ [30] ║
╚══════════╧══════╝```";
    assert_eq!(parse_roll(input2.to_string()), None);
}

#[test]
fn helper_draws_the_usual_table() {
    let drawn = fenced(&[table("    1d10     ", "  6 3 2   ", " [11] ")]);
    assert_eq!(drawn, "```╔═════════════════╗\n║    1d10     ║\n╠══════════╤══════╣\n║  rolls   │ sum  ║\n╟──────────┼──────╢\n║  6 3 2   │ [11] ║\n╚══════════╧══════╝```");
}

#[test]
fn written_rolls_are_read_back() {
    let cases = [
        ("1d6", "4", "4", roll(1, 6, 0, &[4], 4)),
        ("3d8", "1 8 5", "14", roll(3, 8, 0, &[1, 8, 5], 14)),
        ("2d10+20", "5 10 20", "35", roll(2, 10, 20, &[5, 10], 35)),
        ("2d10-3", "5 10 3", "12", roll(2, 10, -3, &[5, 10], 12)),
        ("4d4+1", "1", "1", roll(4, 4, 1, &[], 1)),
        ("1d20", "17", "999", roll(1, 20, 0, &[17], 999)),
        ("12d100+7", "0 100 7", "0", roll(12, 100, 7, &[0, 100], 0)),
    ];
    for (expression, shown, sum, expected) in cases {
        for pad in ["", " ", "    "] {
            let drawn = fenced(&[table(
                &format!("{pad}{expression}{pad}"),
                &format!("{pad}{shown}{pad}"),
                &format!("{pad}[{sum}]{pad}"),
            )]);
            assert_eq!(rolls_of(&drawn), Some(vec![expected.clone()]), "{drawn}");
        }
    }
}

#[test]
fn sum_is_taken_as_written() {
    let drawn = fenced(&[table(" 2d6 ", " 1 2 ", " [40] ")]);
    assert_eq!(rolls_of(&drawn), Some(vec![roll(2, 6, 0, &[1, 2], 40)]));
}

#[test]
fn last_number_is_left_out_only_with_a_modifier() {
    let with = fenced(&[table(" 3d6+2 ", " 1 2 3 2 ", " [8] ")]);
    assert_eq!(rolls_of(&with), Some(vec![roll(3, 6, 2, &[1, 2, 3], 8)]));
    let without = fenced(&[table(" 3d6 ", " 1 2 3 ", " [6] ")]);
    assert_eq!(rolls_of(&without), Some(vec![roll(3, 6, 0, &[1, 2, 3], 6)]));
    let zero = fenced(&[table(" 3d6+0 ", " 1 2 3 ", " [6] ")]);
    assert_eq!(rolls_of(&zero), Some(vec![roll(3, 6, 0, &[1, 2, 3], 6)]));
    let minus_zero = fenced(&[table(" 3d6-0 ", " 1 2 3 ", " [6] ")]);
    assert_eq!(rolls_of(&minus_zero), Some(vec![roll(3, 6, 0, &[1, 2, 3], 6)]));
    let negative = fenced(&[table(" 3d6-2 ", " 1 2 3 2 ", " [4] ")]);
    assert_eq!(rolls_of(&negative), Some(vec![roll(3, 6, -2, &[1, 2, 3], 4)]));
}

#[test]
fn declared_dice_need_not_match_the_row() {
    let drawn = fenced(&[table(" 5d6+1 ", " 2 1 ", " [3] ")]);
    assert_eq!(rolls_of(&drawn), Some(vec![roll(5, 6, 1, &[2], 3)]));
}

#[test]
fn tables_side_by_side_are_all_read_in_order() {
    let tables = [
        table(" 1d4 ", " 3 ", " [3] "),
        table(" 2d6+1 ", " 6 1 1 ", " [8] "),
        table(" 3d8 ", " 8 7 6 ", " [21] "),
        table(" 1d100-5 ", " 50 5 ", " [45] "),
    ];
    assert_eq!(
        rolls_of(&fenced(&tables)),
        Some(vec![
            roll(1, 4, 0, &[3], 3),
            roll(2, 6, 1, &[6, 1], 8),
            roll(3, 8, 0, &[8, 7, 6], 21),
            roll(1, 100, -5, &[50], 45),
        ])
    );
    assert_eq!(rolls_of(&fenced(&tables[..2])).map(|rolls| rolls.len()), Some(2));
}

#[test]
fn one_bad_table_spoils_the_message() {
    let good = [
        table(" 1d4 ", " 3 ", " [3] "),
        table(" 2d6+1 ", " 6 1 1 ", " [8] "),
        table(" 3d8 ", " 8 7 6 ", " [21] "),
    ];
    let bad = [
        table(" 1x4 ", " 3 ", " [3] "),
        table(" 1d4 ", " three ", " [3] "),
        table(" 1d4 ", " 3 ", " 3 "),
        String::from("no table at all"),
        String::new(),
    ];
    for broken in &bad {
        for place in 0..=good.len() {
            let mut tables = good.to_vec();
            tables.insert(place, broken.clone());
            assert_eq!(rolls_of(&fenced(&tables)), None, "{broken:?} at {place}");
        }
        for place in 0..good.len() {
            let mut tables = good.to_vec();
            tables[place] = broken.clone();
            assert_eq!(rolls_of(&fenced(&tables)), None, "{broken:?} in place of {place}");
        }
    }
}

#[test]
fn a_table_cut_short_does_not_borrow_from_the_next() {
    let short = format!("{TOP}║ 2d10 ║\n");
    let whole = table(" 1d4 ", " 3 ", " [3] ");
    assert_eq!(rolls_of(&fenced(&[short, whole])), None);
}

#[test]
fn fences_that_do_not_touch_spoil_the_message() {
    let first = table(" 1d4 ", " 3 ", " [3] ");
    let second = table(" 2d6 ", " 6 1 ", " [7] ");
    assert!(rolls_of(&format!("```{first}``````{second}```")).is_some());
    for gap in ["\n", " ", "\r\n", "\t", "  \n  ", "x", "-"] {
        assert_eq!(rolls_of(&format!("```{first}```{gap}```{second}```")), None, "{gap:?}");
    }
}

#[test]
fn the_fences_must_be_whole() {
    let drawn = table(" 1d4 ", " 3 ", " [3] ");
    assert!(rolls_of(&format!("```{drawn}```")).is_some());
    assert_eq!(rolls_of(&drawn), None);
    assert_eq!(rolls_of(&format!("``{drawn}```")), None);
    assert_eq!(rolls_of(&format!("{drawn}```")), None);
    assert_eq!(rolls_of(&format!("```{drawn}")), None);
    assert_eq!(rolls_of(&format!("```{drawn}`")), None);
    assert_eq!(rolls_of(&format!("```{drawn}``")), None);
    assert_eq!(rolls_of(&format!("```{drawn}````")), None);
    assert_eq!(rolls_of(&format!("```{drawn}`````")), None);
    assert_eq!(rolls_of(&format!("```{drawn}``````")), None);
    assert_eq!(rolls_of(&format!("```{drawn}`````````")), None);
}

#[test]
fn nothing_may_stand_around_the_fences() {
    let drawn = table(" 1d4 ", " 3 ", " [3] ");
    assert_eq!(rolls_of(&format!(" ```{drawn}```")), None);
    assert_eq!(rolls_of(&format!("roll: ```{drawn}```")), None);
    assert_eq!(rolls_of(&format!("```{drawn}```\n")), None);
    assert_eq!(rolls_of(&format!("```{drawn}``` ")), None);
    assert_eq!(rolls_of(&format!("```{drawn}```done")), None);
}

#[test]
fn a_tick_inside_a_table_spoils_it() {
    assert_eq!(rolls_of(&format!("```{TOP}`║ 1d4 ║{HEADERS}║ 3 │ [3] ║{BOTTOM}```")), None);
    assert_eq!(rolls_of(&format!("```{TOP}║ 1d4 ║{HEADERS}║ 3 │ [3] ║`{BOTTOM}```")), None);
    assert_eq!(rolls_of(&format!("```{}```", table(" 1d4 ", " 3 ", " [3] "))).map(|r| r.len()), Some(1));
}

#[test]
fn messages_without_tables_give_nothing() {
    for message in ["", "`", "``", "```", "````", "`````", "``````", "hello", "``` ```", "```\n```", "~!get_data"] {
        assert_eq!(parse_roll(message.to_string()), None, "{message:?}");
    }
}

#[test]
fn parsing_twice_gives_the_same() {
    let drawn = fenced(&[table(" 2d10+20 ", " 5 10 20 ", " [35] ")]);
    assert_eq!(parse_roll(drawn.clone()), parse_roll(drawn));
}
