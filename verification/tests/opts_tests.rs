use elven::opts::{parse, OptsError};

fn args(cmd: &[&str]) -> Vec<Vec<u8>> {
    cmd.iter().map(|s| s.as_bytes().to_vec()).collect()
}

#[test]
fn value_has_dashes() {
    let cmd = args(&["--output", "--meow"]);
    let (opts, files) = parse(cmd).unwrap();
    assert_eq!(opts.output, Some(b"--meow".to_vec()));
    assert!(files.is_empty());
}

#[test]
fn short_value_direct() {
    let cmd = args(&["-estart"]);
    let (opts, _) = parse(cmd).unwrap();
    assert_eq!(opts.entry, Some(b"start".to_vec()));
}

#[test]
fn short_value_2() {
    let cmd = args(&["-e", "start"]);
    let (opts, _) = parse(cmd).unwrap();
    assert_eq!(opts.entry, Some(b"start".to_vec()));
}

#[test]
fn single_dash_long_value_eq() {
    let cmd = args(&["-entry=start"]);
    let (opts, _) = parse(cmd).unwrap();
    assert_eq!(opts.entry, Some(b"start".to_vec()));
}

#[test]
fn single_dash_long_value_2() {
    let cmd = args(&["-entry", "start"]);
    let (opts, _) = parse(cmd).unwrap();
    assert_eq!(opts.entry, Some(b"start".to_vec()));
}

#[test]
fn long_value_eq() {
    let cmd = args(&["--entry=start"]);
    let (opts, _) = parse(cmd).unwrap();
    assert_eq!(opts.entry, Some(b"start".to_vec()));
}

#[test]
fn long_value_2() {
    let cmd = args(&["--entry", "start"]);
    let (opts, _) = parse(cmd).unwrap();
    assert_eq!(opts.entry, Some(b"start".to_vec()));
}

#[test]
fn bad_option() {
    let cmd = args(&["--meow"]);
    parse(cmd).unwrap_err();
}

#[test]
fn no_value_supplied_end() {
    let cmd = args(&["-e"]);
    parse(cmd).unwrap_err();
}

#[test]
fn files_and_options_mix() {
    let cmd = args(&["crt0.o", "-o", "prog", "main.o"]);
    let (opts, files) = parse(cmd).unwrap();
    assert_eq!(opts.output, Some(b"prog".to_vec()));
    assert_eq!(files.len(), 2);
    assert_eq!(files[0].name, b"crt0.o".to_vec());
    assert_eq!(files[1].name, b"main.o".to_vec());
}

#[test]
fn at_file_rejected() {
    let cmd = args(&["@resp"]);
    assert_eq!(parse(cmd).unwrap_err(), OptsError::AtFileUnsupported);
}

#[test]
fn bare_dash_rejected() {
    let cmd = args(&["-"]);
    assert_eq!(parse(cmd).unwrap_err(), OptsError::BareDash);
}

#[test]
fn short_output_never_long() {
    // "-output=x" is the short output option with an attached value, never
    // the long option.
    let cmd = args(&["-output=x"]);
    let (opts, _) = parse(cmd).unwrap();
    assert_eq!(opts.output, Some(b"utput".to_vec()));
}
