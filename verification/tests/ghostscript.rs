use picoshrink::ghostscript::{
    candidates, compression_arguments, compression_command, finish_run, find_in_path,
    get_version, preset, search_names, search_path, version_from_text, Ghostscript, Platform,
    RunOutcome, VersionProbe,
};
use picoshrink::path::PathSyntax;
use picoshrink::path_list::{join_file_name, split_path_list};
use picoshrink::models::CompressionLevel;

fn exited(success: bool, stdout: &[u8]) -> VersionProbe {
    VersionProbe::Exited { success, stdout: stdout.to_vec() }
}

#[test]
fn version_is_trimmed_output() {
    let r = get_version("/usr/bin/gs", &exited(true, b"10.02.1\n"));
    assert_eq!(r, Ok("10.02.1".to_string()));
}

#[test]
fn failed_exit_is_not_ghostscript() {
    let r = get_version("/bin/false", &exited(false, b"10.0"));
    assert_eq!(
        r,
        Err("'/bin/false' ne semble pas être un exécutable Ghostscript valide".to_string())
    );
}

#[test]
fn empty_output_has_no_version() {
    let r = get_version("gs", &exited(true, b" \n\t "));
    assert_eq!(r, Err("Impossible de récupérer la version depuis 'gs'".to_string()));
}

#[test]
fn spawn_failure_is_reported() {
    let probe = VersionProbe::NotStarted { error: "No such file or directory (os error 2)".to_string() };
    let r = get_version("/nope/gs", &probe);
    assert_eq!(
        r,
        Err("Impossible d'exécuter '/nope/gs': No such file or directory (os error 2)".to_string())
    );
}

#[test]
fn invalid_utf8_output_is_decoded_lossily() {
    let bytes: &[u8] = b"9.5\xff\n";
    let r = get_version("gs", &exited(true, bytes));
    assert_eq!(r, Ok(String::from_utf8_lossy(bytes).trim().to_string()));
    assert_eq!(r, Ok("9.5\u{FFFD}".to_string()));
}

#[test]
fn version_from_text_trims_unicode_white_space() {
    assert_eq!(version_from_text("gs", "\u{3000}10.0\u{A0}"), Ok("10.0".to_string()));
    assert!(version_from_text("gs", "\u{2028}").is_err());
}

#[test]
fn from_path_keeps_the_path_and_version() {
    let g = Ghostscript::from_path("/opt/gs".to_string(), &exited(true, b"10.03.0")).unwrap();
    assert_eq!(g.executable(), "/opt/gs");
    assert_eq!(g.version(), "10.03.0");
    assert!(Ghostscript::from_path("/opt/gs".to_string(), &exited(false, b"")).is_err());
}

#[test]
fn detect_takes_the_first_working_candidate() {
    let cands = vec!["/a/gs".to_string(), "/b/gs".to_string(), "/c/gs".to_string()];
    let probed = std::cell::RefCell::new(Vec::new());
    let probe = |c: &String| {
        probed.borrow_mut().push(c.clone());
        if c == "/a/gs" {
            VersionProbe::NotStarted { error: "missing".to_string() }
        } else {
            VersionProbe::Exited { success: true, stdout: format!("{}-v", c).into_bytes() }
        }
    };
    let g = Ghostscript::detect(&cands, probe).unwrap();
    assert_eq!(g.executable(), "/b/gs");
    assert_eq!(g.version(), "/b/gs-v");
    assert_eq!(*probed.borrow(), vec!["/a/gs".to_string(), "/b/gs".to_string()]);
}

#[test]
fn detect_finds_nothing_when_every_probe_fails() {
    let cands = vec!["x".to_string(), "y".to_string()];
    let g = Ghostscript::detect(&cands, |_c: &String| VersionProbe::Exited {
        success: true,
        stdout: b"   ".to_vec(),
    });
    assert!(g.is_none());
    assert!(Ghostscript::detect(&Vec::new(), |_c: &String| VersionProbe::Exited {
        success: true,
        stdout: b"1".to_vec(),
    })
    .is_none());
}

#[test]
fn duplicate_copies_both_fields() {
    let g = Ghostscript::from_path("gs".to_string(), &exited(true, b"9")).unwrap();
    let d = g.duplicate();
    assert_eq!(d.executable(), "gs");
    assert_eq!(d.version(), "9");
}

#[test]
fn candidates_on_each_platform() {
    assert_eq!(
        candidates(Platform::Linux, vec!["/home/u/bin/gs".to_string()]),
        vec!["/home/u/bin/gs", "/usr/bin/gs", "/usr/local/bin/gs"]
    );
    assert_eq!(candidates(Platform::Linux, Vec::new()), vec!["/usr/bin/gs", "/usr/local/bin/gs"]);
    assert_eq!(
        candidates(Platform::MacOs, Vec::new()),
        vec!["/opt/homebrew/bin/gs", "/usr/local/bin/gs"]
    );
    let found = vec![r"C:\gs\bin\gswin64c.exe".to_string(), r"D:\gs\gswin32c.exe".to_string()];
    assert_eq!(candidates(Platform::Windows, found.clone()), found);
    assert!(candidates(Platform::Windows, Vec::new()).is_empty());
    assert!(candidates(Platform::Other, Vec::new()).is_empty());
    assert_eq!(search_names(Platform::Linux), vec!["gs"]);
    assert_eq!(search_names(Platform::MacOs), vec!["gs"]);
    assert_eq!(search_names(Platform::Windows), vec!["gswin64c.exe", "gswin32c.exe"]);
    assert!(search_names(Platform::Other).is_empty());
}

#[test]
fn find_in_path_returns_first_existing_entry() {
    let asked = std::cell::RefCell::new(Vec::new());
    let is_file = |p: &String| {
        asked.borrow_mut().push(p.clone());
        p == "/usr/local/bin/gs" || p == "/bin/gs"
    };
    let found = find_in_path(Platform::Linux, Some("/nope::/usr/local/bin/:/bin"), "gs", is_file);
    assert_eq!(found, Some("/usr/local/bin/gs".to_string()));
    assert_eq!(*asked.borrow(), vec!["/nope/gs", "gs", "/usr/local/bin/gs"]);
}

#[test]
fn find_in_path_without_path_or_match() {
    assert_eq!(find_in_path(Platform::Linux, None, "gs", |_p: &String| true), None);
    assert_eq!(find_in_path(Platform::Linux, Some("/a:/b"), "gs", |_p: &String| false), None);
    assert_eq!(
        find_in_path(Platform::Linux, Some(""), "gs", |p: &String| p == "gs"),
        Some("gs".to_string())
    );
}

#[test]
fn windows_path_list_splits_at_semicolons_outside_quotes() {
    assert_eq!(
        split_path_list(PathSyntax::Windows, r#"C:\gs\bin;"D:\a;b";C:"#),
        vec![r"C:\gs\bin", r"D:\a;b", "C:"]
    );
    assert_eq!(split_path_list(PathSyntax::Windows, "a;"), vec!["a", ""]);
    assert_eq!(split_path_list(PathSyntax::Windows, ""), vec![""]);
    assert_eq!(split_path_list(PathSyntax::Windows, "a:b"), vec!["a:b"]);
    assert_eq!(split_path_list(PathSyntax::Unix, "a:b;c"), vec!["a", "b;c"]);
}

#[test]
fn windows_join_of_a_file_name() {
    let w = |d: &str| join_file_name(PathSyntax::Windows, d, "gswin64c.exe");
    assert_eq!(w(""), "gswin64c.exe");
    assert_eq!(w("C:"), "C:gswin64c.exe");
    assert_eq!(w(r"C:\x\"), r"C:\x\gswin64c.exe");
    assert_eq!(w("C:/x/"), "C:/x/gswin64c.exe");
    assert_eq!(w(r"C:\x"), r"C:\x\gswin64c.exe");
    assert_eq!(w(r"\\?\C:\a\\b\"), r"\\?\C:\a\b\gswin64c.exe");
    assert_eq!(w(r"\\?\UNC\srv\share\d"), r"\\?\UNC\srv\share\d\gswin64c.exe");
    assert_eq!(join_file_name(PathSyntax::Unix, "/usr/bin", "gs"), "/usr/bin/gs");
}

#[test]
fn windows_search_tries_both_names_in_order() {
    let asked = std::cell::RefCell::new(Vec::new());
    let is_file = |p: &String| {
        asked.borrow_mut().push(p.clone());
        p == r"D:\gs\gswin64c.exe" || p == r"C:\bin\gswin32c.exe"
    };
    let found = search_path(Platform::Windows, Some(r"C:\bin;D:\gs"), &is_file);
    assert_eq!(found, vec![r"D:\gs\gswin64c.exe", r"C:\bin\gswin32c.exe"]);
    assert_eq!(
        *asked.borrow(),
        vec![r"C:\bin\gswin64c.exe", r"D:\gs\gswin64c.exe", r"C:\bin\gswin32c.exe"]
    );
    let cands = candidates(Platform::Windows, found);
    assert_eq!(cands, vec![r"D:\gs\gswin64c.exe", r"C:\bin\gswin32c.exe"]);
}

#[test]
fn search_path_on_unix_and_other_systems() {
    let found = search_path(Platform::Linux, Some("/x:/y"), |p: &String| p == "/y/gs");
    assert_eq!(found, vec!["/y/gs"]);
    assert!(search_path(Platform::Linux, None, |_p: &String| true).is_empty());
    assert!(search_path(Platform::Other, Some("/x"), |_p: &String| true).is_empty());
}

#[test]
fn presets_per_level() {
    assert_eq!(preset(CompressionLevel::HighQuality), "/prepress");
    assert_eq!(preset(CompressionLevel::Balanced), "/ebook");
    assert_eq!(preset(CompressionLevel::Strong), "/screen");
}

#[test]
fn arguments_name_output_then_input() {
    let args = compression_arguments("in put.pdf", "out.pdf", CompressionLevel::Strong);
    assert_eq!(
        args,
        vec![
            "-sDEVICE=pdfwrite",
            "-dCompatibilityLevel=1.4",
            "-dPDFSETTINGS=/screen",
            "-dNOPAUSE",
            "-dQUIET",
            "-dBATCH",
            "-dDetectDuplicateImages=true",
            "-dCompressFonts=true",
            "-dSubsetFonts=true",
            "-sOutputFile=out.pdf",
            "in put.pdf",
        ]
    );
}

#[test]
fn command_refuses_missing_input_and_same_file() {
    assert_eq!(
        compression_command(PathSyntax::Unix, "a.pdf", "b.pdf", CompressionLevel::Balanced, false),
        Err("Le fichier d'entrée 'a.pdf' n'existe pas".to_string())
    );
    assert_eq!(
        compression_command(PathSyntax::Unix, "dir/a.pdf", "dir//a.pdf", CompressionLevel::Balanced, true),
        Err("Le fichier de sortie ne peut pas être identique au fichier d'entrée".to_string())
    );
    assert!(compression_command(PathSyntax::Unix, "a.pdf", "./a.pdf", CompressionLevel::Balanced, true).is_ok());
}

#[test]
fn run_outcomes() {
    assert_eq!(finish_run("gs", &RunOutcome::Finished { success: true, code: Some(0) }), Ok(()));
    assert_eq!(
        finish_run("gs", &RunOutcome::Finished { success: false, code: Some(1) }),
        Err(format!("Ghostscript a échoué avec le code {:?}", Some(1)))
    );
    assert_eq!(
        finish_run("gs", &RunOutcome::Finished { success: false, code: Some(i32::MIN) }),
        Err(format!("Ghostscript a échoué avec le code {:?}", Some(i32::MIN)))
    );
    assert_eq!(
        finish_run("gs", &RunOutcome::Finished { success: false, code: None }),
        Err("Ghostscript a échoué avec le code None".to_string())
    );
    assert_eq!(
        finish_run("/x/gs", &RunOutcome::NotStarted { error: "denied".to_string() }),
        Err("Impossible de lancer Ghostscript '/x/gs': denied".to_string())
    );
}

#[test]
fn compress_runs_ghostscript_with_the_arguments() {
    let g = Ghostscript::from_path("/usr/bin/gs".to_string(), &exited(true, b"10")).unwrap();
    let seen = std::cell::RefCell::new(None);
    let r = g.compress(PathSyntax::Unix, "a.pdf", "b.pdf", CompressionLevel::HighQuality, true, |x: &String, a: &Vec<String>| {
        *seen.borrow_mut() = Some((x.clone(), a.clone()));
        RunOutcome::Finished { success: false, code: Some(-2) }
    });
    assert_eq!(r, Err("Ghostscript a échoué avec le code Some(-2)".to_string()));
    let (x, a) = seen.borrow().clone().unwrap();
    assert_eq!(x, "/usr/bin/gs");
    assert_eq!(a, compression_arguments("a.pdf", "b.pdf", CompressionLevel::HighQuality));
}

#[test]
fn compress_does_not_run_when_refused() {
    let g = Ghostscript::from_path("gs".to_string(), &exited(true, b"10")).unwrap();
    let r = g.compress(PathSyntax::Unix, "a.pdf", "a.pdf", CompressionLevel::Balanced, true, |_x: &String, _a: &Vec<String>| {
        panic!("must not run")
    });
    assert_eq!(
        r,
        Err("Le fichier de sortie ne peut pas être identique au fichier d'entrée".to_string())
    );
}
