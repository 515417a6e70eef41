use uniqr::config::get_args;
use uniqr::engine::process_lines;
use uniqr::engine::Aggregator;
use uniqr::line::key_len;
use uniqr::line::keys_equal;
use uniqr::render::format_record;

fn lines(items: &[&[u8]]) -> Vec<Vec<u8>> {
    items.iter().map(|b| b.to_vec()).collect()
}

#[test]
fn empty_input_yields_nothing() {
    assert_eq!(process_lines(&lines(&[]), false), lines(&[]));
    assert_eq!(process_lines(&lines(&[]), true), lines(&[]));
}

#[test]
fn literal_scenario_plain() {
    let input = lines(&[b"a\n", b"a\n", b"b\n"]);
    assert_eq!(process_lines(&input, false), lines(&[b"a\n", b"b\n"]));
}

#[test]
fn literal_scenario_counts() {
    let input = lines(&[b"a\n", b"a\n", b"b\n"]);
    assert_eq!(process_lines(&input, true), lines(&[b"   2 a\n", b"   1 b\n"]));
}

#[test]
fn all_duplicates_single_record() {
    let input = lines(&[b"x\n", b"x\n", b"x\n", b"x\n", b"x\n"]);
    assert_eq!(process_lines(&input, false), lines(&[b"x\n"]));
    assert_eq!(process_lines(&input, true), lines(&[b"   5 x\n"]));
}

#[test]
fn non_adjacent_repeats_are_kept() {
    let input = lines(&[b"a\n", b"b\n", b"a\n"]);
    assert_eq!(process_lines(&input, false), input);
    assert_eq!(
        process_lines(&input, true),
        lines(&[b"   1 a\n", b"   1 b\n", b"   1 a\n"])
    );
}

#[test]
fn counts_add_up_to_input_length() {
    let input = lines(&[b"a\n", b"a\n", b"b\n", b"b\n", b"b\n"]);
    assert_eq!(process_lines(&input, true), lines(&[b"   2 a\n", b"   3 b\n"]));
}

#[test]
fn emission_bound_scenarios() {
    let collapsing = lines(&[b"a\n", b"a\n", b"b\n"]);
    assert!(process_lines(&collapsing, false).len() < collapsing.len());
    let distinct = lines(&[b"a\n", b"b\n", b"c\n"]);
    assert_eq!(process_lines(&distinct, false).len(), distinct.len());
}

#[test]
fn collapsed_output_is_a_fixed_point() {
    let input = lines(&[b"a\n", b"a\n", b"b\n", b"b\n", b"a\n", b"c\n", b"c\n"]);
    let once = process_lines(&input, false);
    let twice = process_lines(&once, false);
    assert_eq!(twice, once);
}

#[test]
fn final_line_without_terminator_is_kept_verbatim() {
    let input = lines(&[b"b\n", b"a"]);
    assert_eq!(process_lines(&input, false), lines(&[b"b\n", b"a"]));
}

#[test]
fn final_line_without_terminator_counts_like_its_duplicates() {
    let input = lines(&[b"x\n", b"x"]);
    assert_eq!(process_lines(&input, true), lines(&[b"   2 x\n"]));
    assert_eq!(process_lines(&input, false), lines(&[b"x\n"]));
}

#[test]
fn crlf_and_lf_terminators_compare_equal() {
    let input = lines(&[b"a\r\n", b"a\n"]);
    assert_eq!(process_lines(&input, false), lines(&[b"a\r\n"]));
    assert_eq!(process_lines(&input, true), lines(&[b"   2 a\r\n"]));
}

#[test]
fn trailing_space_is_content_not_terminator() {
    let input = lines(&[b"a \n", b"a\n"]);
    assert_eq!(process_lines(&input, false), input);
}

#[test]
fn empty_lines_form_runs_too() {
    let input = lines(&[b"\n", b"\n", b"x\n"]);
    assert_eq!(process_lines(&input, false), lines(&[b"\n", b"x\n"]));
    assert_eq!(process_lines(&input, true), lines(&[b"   2 \n", b"   1 x\n"]));
}

#[test]
fn count_field_minimum_width_is_four() {
    let rep = b"y\n".to_vec();
    assert_eq!(format_record(true, &rep, 1), b"   1 y\n".to_vec());
    assert_eq!(format_record(true, &rep, 42), b"  42 y\n".to_vec());
    assert_eq!(format_record(true, &rep, 999), b" 999 y\n".to_vec());
    assert_eq!(format_record(true, &rep, 1000), b"1000 y\n".to_vec());
}

#[test]
fn count_field_widens_past_four_digits() {
    let rep = b"y\n".to_vec();
    assert_eq!(format_record(true, &rep, 12345), b"12345 y\n".to_vec());
}

#[test]
fn plain_record_is_the_representative() {
    let rep = b"text with spaces \n".to_vec();
    assert_eq!(format_record(false, &rep, 7), rep);
}

#[test]
fn key_length_strips_one_terminator() {
    assert_eq!(key_len(&b"a\n".to_vec()), 1);
    assert_eq!(key_len(&b"a\r\n".to_vec()), 1);
    assert_eq!(key_len(&b"a".to_vec()), 1);
    assert_eq!(key_len(&b"a\r".to_vec()), 2);
    assert_eq!(key_len(&b"".to_vec()), 0);
    assert_eq!(key_len(&b"\n".to_vec()), 0);
}

#[test]
fn key_comparison_ignores_terminators_only() {
    assert!(keys_equal(&b"a\n".to_vec(), &b"a".to_vec()));
    assert!(keys_equal(&b"a\r\n".to_vec(), &b"a\n".to_vec()));
    assert!(!keys_equal(&b"a \n".to_vec(), &b"a\n".to_vec()));
    assert!(!keys_equal(&b"a\n".to_vec(), &b"b\n".to_vec()));
    assert!(keys_equal(&b"\n".to_vec(), &b"".to_vec()));
}

#[test]
fn aggregator_emits_on_key_change_and_finish() {
    let mut agg = Aggregator::new(false);
    assert_eq!(agg.observe(b"a\n".to_vec()), None);
    assert_eq!(agg.observe(b"a\n".to_vec()), None);
    assert_eq!(agg.observe(b"b\n".to_vec()), Some(b"a\n".to_vec()));
    assert_eq!(agg.finish(), Some(b"b\n".to_vec()));
}

#[test]
fn aggregator_counts_the_whole_run() {
    let mut agg = Aggregator::new(true);
    assert_eq!(agg.observe(b"z\n".to_vec()), None);
    assert_eq!(agg.observe(b"z\n".to_vec()), None);
    assert_eq!(agg.observe(b"z\n".to_vec()), None);
    assert_eq!(agg.count, 3);
    assert_eq!(agg.finish(), Some(b"   3 z\n".to_vec()));
}

#[test]
fn aggregator_on_no_input_emits_nothing() {
    let agg = Aggregator::new(true);
    assert_eq!(agg.finish(), None);
}

#[test]
fn configuration_keeps_resolved_values() {
    let args = get_args(String::from("-"), None, false);
    assert_eq!(args.in_file, "-");
    assert_eq!(args.out_file, None);
    assert!(!args.count);

    let args = get_args(String::from("in.txt"), Some(String::from("out.txt")), true);
    assert_eq!(args.in_file, "in.txt");
    assert_eq!(args.out_file, Some(String::from("out.txt")));
    assert!(args.count);
}
