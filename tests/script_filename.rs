use kas_selector::error::Application;
use kas_selector::script_filename::ShellScriptFilename;

#[test]
fn valid_shell_filenames() {
    let f: ShellScriptFilename = "install.sh".parse().unwrap();
    assert_eq!(f.as_str(), "install.sh");

    let f: ShellScriptFilename = "x.sh".parse().unwrap();
    assert_eq!(f.as_str(), "x.sh");
}

#[test]
fn invalid_shell_filenames() {
    assert!("foo".parse::<ShellScriptFilename>().is_err());
    assert!("bad/script.sh".parse::<ShellScriptFilename>().is_err());
    assert!("".parse::<ShellScriptFilename>().is_err());
    assert!("/etc/passwd".parse::<ShellScriptFilename>().is_err());
    assert!("sh".repeat(300).parse::<ShellScriptFilename>().is_err()); // too long
}

#[test]
fn dot_names_are_rejected() {
    assert!(ShellScriptFilename::parse(".").is_err());
    assert!(ShellScriptFilename::parse("..").is_err());
    assert!(ShellScriptFilename::parse(".sh").is_err());
    assert!(ShellScriptFilename::parse("..sh").is_ok());
}

#[test]
fn nul_and_separators_are_rejected() {
    assert!(ShellScriptFilename::parse("a\0b.sh").is_err());
    assert!(ShellScriptFilename::parse("a.sh/").is_err());
    assert!(ShellScriptFilename::parse("./a.sh").is_err());
}

#[test]
fn extension_must_be_sh() {
    assert!(ShellScriptFilename::parse("run.bash").is_err());
    assert!(ShellScriptFilename::parse("run.SH").is_err());
    assert!(ShellScriptFilename::parse("run.sh.bak").is_err());
    assert!(ShellScriptFilename::parse("archive.tar.sh").is_ok());
}

#[test]
fn length_limit_is_255_bytes() {
    let ok = format!("{}.sh", "a".repeat(252));
    assert_eq!(ok.len(), 255);
    assert!(ShellScriptFilename::parse(&ok).is_ok());
    let long = format!("{}.sh", "a".repeat(253));
    assert!(ShellScriptFilename::parse(&long).is_err());
    // 'é' takes two bytes: 127 of them are 254 bytes, plus ".sh" is 257.
    let wide = format!("{}.sh", "é".repeat(127));
    assert!(ShellScriptFilename::parse(&wide).is_err());
}

#[test]
fn rejection_reports_the_offending_name() {
    match ShellScriptFilename::parse("bad/script.sh") {
        Err(Application::BadInitData { category, value }) => {
            assert_eq!(category, "ShellScriptFilename");
            assert_eq!(value, "bad/script.sh");
        }
        other => panic!("unexpected result: {:?}", other),
    }
}

#[test]
fn clone_keeps_the_name() {
    let f = ShellScriptFilename::parse("kas-script.sh").unwrap();
    let g = f.clone();
    assert_eq!(g.as_str(), "kas-script.sh");
    assert_eq!(f, g);
}
