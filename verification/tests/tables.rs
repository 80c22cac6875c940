use dice_roll_parser::fence::{split_fences, ticks_at};
use dice_roll_parser::parser::{chars_of, parse_message};
use dice_roll_parser::table::{
    assemble_roll, parse_dice_input, parse_dice_output, parse_modifier, parse_roll_list,
    parse_table, parse_table_middle, parse_table_top,
};
use dice_roll_parser::{DiceExpression, DiceRollInstance};

fn chars(text: &str) -> Vec<char> {
    text.chars().collect()
}

fn expression(text: &str) -> Option<(DiceExpression, usize)> {
    parse_dice_input(&chars(text), 0)
}

fn dice(count: usize, faces: usize, modifier: isize) -> DiceExpression {
    DiceExpression { count, faces, modifier }
}

fn row(text: &str) -> Option<((Vec<usize>, usize), usize)> {
    parse_dice_output(&chars(text), 0)
}

#[test]
fn characters_are_taken_one_by_one() {
    assert_eq!(chars_of("a║`1"), vec!['a', '\u{2551}', '`', '1']);
    assert_eq!(chars_of(""), Vec::<char>::new());
    assert_eq!(chars_of("║ 6 │ [6] ║").len(), 11);
}

#[test]
fn dice_expression_plain() {
    assert_eq!(expression("1d10"), Some((dice(1, 10, 0), 4)));
    assert_eq!(expression("    1d10     ║"), Some((dice(1, 10, 0), 13)));
    assert_eq!(expression("\t\r\n 12d6 \n\t║"), Some((dice(12, 6, 0), 11)));
    assert_eq!(expression("007d010"), Some((dice(7, 10, 0), 7)));
}

#[test]
fn dice_expression_with_modifier() {
    assert_eq!(expression("2d10+20"), Some((dice(2, 10, 20), 7)));
    assert_eq!(expression("     2d10+20     ║"), Some((dice(2, 10, 20), 17)));
    assert_eq!(expression("2d10-20"), Some((dice(2, 10, -20), 7)));
    assert_eq!(expression("2d10+0"), Some((dice(2, 10, 0), 6)));
    assert_eq!(expression("2d10-007 x"), Some((dice(2, 10, -7), 9)));
}

#[test]
fn dice_expression_starts_where_the_cursor_is() {
    let text = chars("║ 3d4+5 ║");
    assert_eq!(parse_dice_input(&text, 1), Some((dice(3, 4, 5), 8)));
    assert_eq!(parse_dice_input(&text, 2), Some((dice(3, 4, 5), 8)));
    assert_eq!(parse_dice_input(&text, 0), None);
    assert_eq!(parse_dice_input(&text, 9), None);
}

#[test]
fn a_sign_without_digits_is_no_modifier() {
    assert_eq!(expression("2d10+"), Some((dice(2, 10, 0), 4)));
    assert_eq!(expression("2d10- 5"), Some((dice(2, 10, 0), 4)));
    assert_eq!(expression("2d10 +5"), Some((dice(2, 10, 0), 5)));
    assert_eq!(expression("2d10+x"), Some((dice(2, 10, 0), 4)));
    assert_eq!(expression("2d10++5"), Some((dice(2, 10, 0), 4)));
}

#[test]
fn dice_expression_refused() {
    for text in ["", "   ", "d10", "2d", "2 d10", "2d 10", "2D10", "2x10", "x2d10", "+2d10", "-2d10", "║2d10"] {
        assert_eq!(expression(text), None, "{text:?}");
    }
}

#[test]
fn dice_expression_needs_a_die_with_a_face() {
    assert_eq!(expression("0d6"), None);
    assert_eq!(expression("2d0"), None);
    assert_eq!(expression("0d0+3"), None);
    assert_eq!(expression("000d6"), None);
    assert_eq!(expression("1d1"), Some((dice(1, 1, 0), 3)));
}

#[test]
fn numbers_too_large_are_refused() {
    let most = usize::MAX.to_string();
    let most_signed = isize::MAX.to_string();
    let too_many = format!("{most}0");
    let one_more = (isize::MAX as usize + 1).to_string();
    assert_eq!(expression(&format!("{most}d{most}")), Some((dice(usize::MAX, usize::MAX, 0), 2 * most.len() + 1)));
    assert_eq!(expression(&format!("{too_many}d6")), None);
    assert_eq!(expression(&format!("6d{too_many}")), None);
    assert_eq!(expression("99999999999999999999999999999999999999d6"), None);
    assert_eq!(
        expression(&format!("1d6+{most_signed}")),
        Some((dice(1, 6, isize::MAX), 4 + most_signed.len()))
    );
    assert_eq!(
        expression(&format!("1d6-{most_signed}")),
        Some((dice(1, 6, -isize::MAX), 4 + most_signed.len()))
    );
    assert_eq!(expression(&format!("1d6+{one_more}")), None);
    assert_eq!(expression(&format!("1d6-{one_more}")), None);
    assert_eq!(expression(&format!("1d6+{most}")), None);
    let padded = "0000000000000000000000000000000000000012d6";
    assert_eq!(expression(padded), Some((dice(12, 6, 0), padded.len())));
}

#[test]
fn modifier_alone() {
    assert_eq!(parse_modifier(&chars("+20 "), 0), Some((20, 3)));
    assert_eq!(parse_modifier(&chars("-20"), 0), Some((-20, 3)));
    assert_eq!(parse_modifier(&chars("20"), 0), Some((0, 0)));
    assert_eq!(parse_modifier(&chars(""), 0), Some((0, 0)));
    assert_eq!(parse_modifier(&chars("+"), 0), Some((0, 0)));
    assert_eq!(parse_modifier(&chars("x+4"), 1), Some((4, 3)));
    assert_eq!(parse_modifier(&chars("+99999999999999999999999999"), 0), None);
}

#[test]
fn top_of_the_frame() {
    assert_eq!(parse_table_top(&chars("╔═══╗\n║ 1d4"), 0), Some(7));
    assert_eq!(parse_table_top(&chars("║"), 0), Some(1));
    assert_eq!(parse_table_top(&chars("║║"), 1), Some(2));
    assert_eq!(parse_table_top(&chars("╔═══╗\n"), 0), None);
    assert_eq!(parse_table_top(&chars("│┼╢╟"), 0), None);
    assert_eq!(parse_table_top(&chars(""), 0), None);
}

#[test]
fn middle_of_the_frame() {
    let text = chars("║\n╠══╤══╣\n║ rolls │ sum ║\n╟──┼──╢\n║ 6 │ [6] ║");
    assert_eq!(parse_table_middle(&text, 0), Some(35));
    assert_eq!(text[34], '\u{2551}');
    assert_eq!(parse_table_middle(&chars("┼║"), 0), Some(2));
    assert_eq!(parse_table_middle(&chars("║┼"), 0), None);
    assert_eq!(parse_table_middle(&chars("║ rolls │ sum ║"), 0), None);
    assert_eq!(parse_table_middle(&chars("┼──╢"), 0), None);
    assert_eq!(parse_table_middle(&chars("x┼y║z║"), 0), Some(4));
    assert_eq!(parse_table_middle(&chars(""), 0), None);
}

#[test]
fn data_row_plain() {
    assert_eq!(row("  6 3 2   │ [11] ║"), Some(((vec![6, 3, 2], 11), 17)));
    assert_eq!(row("6│[6]"), Some(((vec![6], 6), 5)));
    assert_eq!(row(" 5 10 20  │ [35] ║"), Some(((vec![5, 10, 20], 35), 17)));
    assert_eq!(row("1\t2\n3\r\n4 │\t[ignored"), None);
    assert_eq!(row("1\t2\n3\r\n4 │\t[10]\n"), Some(((vec![1, 2, 3, 4], 10), 16)));
    assert_eq!(row("007 08 │ [0015]"), Some(((vec![7, 8], 15), 15)));
}

#[test]
fn data_row_refused() {
    for text in [
        "", "   ", "│ [11]", "  │ [11]", "6 3 2 [11]", "6 3 2 │ 11", "6 3 2 │ [11", "6 3 2 │ []",
        "6 3 2 │ [ 11]", "6 3 2 │ [11 ]", "6 3 2 │ [x]", "6,3,2 │ [11]", "6 x 2 │ [11]", "-6 │ [6]",
        "6 3 2 ║ [11]", "6 3 2 ┼ [11]", "6 3 2 │ (11)", "6 3 2 │ [-11]",
    ] {
        assert_eq!(row(text), None, "{text:?}");
    }
}

#[test]
fn data_row_numbers_too_large() {
    let most = usize::MAX.to_string();
    assert_eq!(
        row(&format!("{most} 1 │ [{most}]")),
        Some(((vec![usize::MAX, 1], usize::MAX), 2 * most.len() + 7))
    );
    assert_eq!(row(&format!("{most}0 1 │ [1]")), None);
    assert_eq!(row(&format!("1 {most}0 │ [1]")), None);
    assert_eq!(row(&format!("1 2 │ [{most}0]")), None);
}

#[test]
fn list_of_rolls_stops_behind_its_last_number() {
    assert_eq!(parse_roll_list(&chars("6 3 2   │"), 0), Some((vec![6, 3, 2], 5)));
    assert_eq!(parse_roll_list(&chars("6"), 0), Some((vec![6], 1)));
    assert_eq!(parse_roll_list(&chars("6  "), 0), Some((vec![6], 1)));
    assert_eq!(parse_roll_list(&chars("6  x"), 0), Some((vec![6], 1)));
    assert_eq!(parse_roll_list(&chars("12 34"), 3), Some((vec![34], 5)));
    assert_eq!(parse_roll_list(&chars(" 6"), 0), None);
    assert_eq!(parse_roll_list(&chars(""), 0), None);
}

#[test]
fn roll_is_put_together() {
    assert_eq!(
        assemble_roll(dice(2, 10, 20), vec![5, 10, 20], 35),
        DiceRollInstance { number_of_dice: 2, size_of_dice: 10, modifier: 20, dice_rolls: vec![5, 10], total: 35 }
    );
    assert_eq!(
        assemble_roll(dice(1, 10, 0), vec![6, 3, 2], 11),
        DiceRollInstance { number_of_dice: 1, size_of_dice: 10, modifier: 0, dice_rolls: vec![6, 3, 2], total: 11 }
    );
    assert_eq!(
        assemble_roll(dice(1, 10, -1), vec![4], 3),
        DiceRollInstance { number_of_dice: 1, size_of_dice: 10, modifier: -1, dice_rolls: vec![], total: 3 }
    );
    assert_eq!(
        assemble_roll(dice(1, 10, 5), vec![], 3),
        DiceRollInstance { number_of_dice: 1, size_of_dice: 10, modifier: 5, dice_rolls: vec![], total: 3 }
    );
}

#[test]
fn table_alone() {
    let drawn = "╔═════════════════╗\n║     2d10+20     ║\n╠══════════╤══════╣\n║  rolls   │ sum  ║\n╟──────────┼──────╢\n║ 5 10 20  │ [35] ║\n╚══════════╧══════╝";
    assert_eq!(
        parse_table(&chars(drawn)),
        Some(DiceRollInstance { number_of_dice: 2, size_of_dice: 10, modifier: 20, dice_rolls: vec![5, 10], total: 35 })
    );
    assert_eq!(
        parse_table(&chars("║1d4┼║3│[3]")),
        Some(DiceRollInstance { number_of_dice: 1, size_of_dice: 4, modifier: 0, dice_rolls: vec![3], total: 3 })
    );
    assert_eq!(
        parse_table(&chars("║1d4┼║3│[3] whatever ║ ┼ │ [9]")),
        Some(DiceRollInstance { number_of_dice: 1, size_of_dice: 4, modifier: 0, dice_rolls: vec![3], total: 3 })
    );
}

#[test]
fn table_with_a_part_missing() {
    for drawn in [
        "", "1d4┼║3│[3]", "║┼║3│[3]", "║1d4║3│[3]", "║1d4┼3│[3]", "║1d4┼║│[3]", "║1d4┼║3[3]",
        "║1d4┼║3│3", "║1d4┼║3│[3", "║1d4+99999999999999999999999┼║3 9│[3]", "║0d4┼║3│[3]",
    ] {
        assert_eq!(parse_table(&chars(drawn)), None, "{drawn:?}");
    }
}

#[test]
fn fences_are_counted() {
    let text = chars("```a``````b```");
    assert!(ticks_at(&text, 0, 3));
    assert!(!ticks_at(&text, 0, 4));
    assert!(ticks_at(&text, 4, 6));
    assert!(ticks_at(&text, 4, 3));
    assert!(!ticks_at(&text, 3, 1));
    assert!(ticks_at(&text, 11, 3));
    assert!(!ticks_at(&text, 12, 3));
    assert!(ticks_at(&text, 14, 0));
    assert!(!ticks_at(&text, 14, 1));
}

#[test]
fn message_is_cut_at_its_fences() {
    assert_eq!(split_fences(&chars("```a``````bc``````def```")), Some(vec![(3, 4), (10, 12), (18, 21)]));
    assert_eq!(split_fences(&chars("```abc```")), Some(vec![(3, 6)]));
    assert_eq!(split_fences(&chars("`````````abc```")), Some(vec![(3, 3), (9, 12)]));
    assert_eq!(split_fences(&chars("```a``````````b```")), None);
    assert_eq!(split_fences(&chars("``````")), Some(vec![(3, 3)]));
    assert_eq!(
        split_fences(&chars("```a``````b`````````")),
        Some(vec![(3, 4), (10, 11), (17, 17)])
    );
    for text in [
        "", "```", "`````", "```abc", "abc```", "```abc``", "```abc````", "```a```\n```b```",
        "```a`````b```", "```a```````b```", "```a``````b", "```a``````b```c", " ```a```",
        "```a``````b````", "```a``````b``````",
    ] {
        assert_eq!(split_fences(&chars(text)), None, "{text:?}");
    }
}

#[test]
fn message_from_characters() {
    let one = "║1d4┼║3│[3]";
    let two = "║2d6+1┼║6 5 1│[12]";
    let request = parse_message(&chars(&format!("```{one}``````{two}```"))).unwrap();
    assert_eq!(request.rolls.len(), 2);
    assert_eq!(request.rolls[0].dice_rolls, vec![3]);
    assert_eq!(request.rolls[1].dice_rolls, vec![6, 5]);
    assert_eq!(request.rolls[1].modifier, 1);
    assert_eq!(parse_message(&chars(&format!("```{one}```\n```{two}```"))), None);
    assert_eq!(parse_message(&chars("")), None);
}
