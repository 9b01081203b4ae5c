use ppa::cli::split_args;

#[test]
fn splits_blanks_into_tokens() {
    let args = split_args("ppa -p pattern  -o   out jaccard");
    assert_eq!(
        args,
        vec!["ppa", "-p", "pattern", "-o", "out", "jaccard"]
    );
}

#[test]
fn quotes_group_one_token() {
    let args = split_args("-p \"some dir/*.csv\" -o out");
    assert_eq!(args, vec!["-p", "some dir/*.csv", "-o", "out"]);
}

#[test]
fn tokens_are_trimmed_and_empties_dropped() {
    let args = split_args("  a \t b\n c  ");
    assert_eq!(args, vec!["a", "b", "c"]);
    let none = split_args("   \t ");
    assert!(none.is_empty());
}
