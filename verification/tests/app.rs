use picoshrink::app::{
    compression_report, ensure_pdf_extension, file_label, ChannelEvent, PdfCompressorApp,
};
use picoshrink::ghostscript::{Ghostscript, RunOutcome, VersionProbe};
use picoshrink::models::{total_sizes, CompressionLevel, CompressionResult, CompressionStatus};
use picoshrink::path::PathSyntax;
use std::path::Path;

fn gs() -> Ghostscript {
    Ghostscript::from_path(
        "/usr/bin/gs".to_string(),
        &VersionProbe::Exited { success: true, stdout: b"10.02.1\n".to_vec() },
    )
    .unwrap()
}

fn ensure_by_std(path: &str) -> String {
    let p = Path::new(path);
    if p.extension()
        .and_then(|ext| ext.to_str())
        .is_some_and(|ext| ext.eq_ignore_ascii_case("pdf"))
    {
        p.to_str().unwrap().to_string()
    } else {
        p.with_extension("pdf").to_str().unwrap().to_string()
    }
}

#[test]
fn ensure_pdf_extension_examples() {
    assert_eq!(ensure_pdf_extension("out.PDF"), "out.PDF");
    assert_eq!(ensure_pdf_extension("out.txt"), "out.pdf");
    assert_eq!(ensure_pdf_extension("out"), "out.pdf");
    assert_eq!(ensure_pdf_extension("dir/out.tar.gz"), "dir/out.tar.pdf");
    assert_eq!(ensure_pdf_extension("/"), "/");
    assert_eq!(ensure_pdf_extension("..x"), "..");
}

#[test]
fn ensure_pdf_extension_agrees_with_std_paths() {
    for p in [
        "", "/", ".", "..", "a", "a.txt", "a.pdf", "a.Pdf", "a/", "a.txt/", "..x", "..x/", "a/..x",
        ".hidden", "a.", "x/y.z/.", "été.doc", "a b", "dir/.pdf",
    ] {
        assert_eq!(ensure_pdf_extension(p), ensure_by_std(p), "path {p:?}");
        let once = ensure_pdf_extension(p);
        assert_eq!(ensure_pdf_extension(&once), once, "twice {p:?}");
    }
}

#[test]
fn ensure_pdf_extension_keeps_the_directory_and_changes_only_non_pdf_names() {
    for p in ["a", "a.txt", "a.PDF", "d/e/a.pdf", "d/e/a.tar.gz", "/x/.hidden", "a.txt/", "x/y.z/."] {
        let r = ensure_pdf_extension(p);
        let is_pdf = |q: &str| {
            Path::new(q).extension().and_then(|e| e.to_str()).is_some_and(|e| e.eq_ignore_ascii_case("pdf"))
        };
        assert!(is_pdf(&r), "pdf {p:?}");
        assert_eq!(Path::new(&r).parent(), Path::new(p).parent(), "parent {p:?}");
        assert_eq!(r == p, is_pdf(p), "unchanged {p:?}");
    }
}

#[test]
fn file_label_falls_back() {
    assert_eq!(file_label(PathSyntax::Unix, "/tmp/report.pdf", "Document PDF"), "report.pdf");
    assert_eq!(file_label(PathSyntax::Unix, "/", "Document PDF"), "Document PDF");
}

#[test]
fn new_state_is_empty() {
    let app = PdfCompressorApp::new(PathSyntax::Unix, None);
    assert!(app.input_file.is_none());
    assert!(app.output_file.is_none());
    assert_eq!(app.compression_level, CompressionLevel::Balanced);
    assert!(matches!(app.compression_status, CompressionStatus::Idle));
    assert!(!app.awaiting_result);
    assert!(!app.can_compress());
    assert_eq!(app.ghostscript_label(), "Ghostscript non détecté");
}

#[test]
fn selecting_input_proposes_output() {
    let mut app = PdfCompressorApp::new(PathSyntax::Unix, Some(gs()));
    app.compression_status = CompressionStatus::Error("old".to_string());
    app.select_input_file(Some("/docs/report.pdf".to_string()));
    assert_eq!(app.input_file.as_deref(), Some("/docs/report.pdf"));
    assert_eq!(app.output_file.as_deref(), Some("/docs/report_compressed.pdf"));
    assert!(matches!(app.compression_status, CompressionStatus::Idle));
    assert!(app.can_compress());
    assert_eq!(app.suggested_output_name().as_deref(), Some("report_compressed.pdf"));
    app.select_input_file(None);
    assert_eq!(app.input_file.as_deref(), Some("/docs/report.pdf"));
}

#[test]
fn selecting_output_adds_pdf_extension() {
    let mut app = PdfCompressorApp::new(PathSyntax::Unix, None);
    app.select_output_file(Some("/tmp/small".to_string()));
    assert_eq!(app.output_file.as_deref(), Some("/tmp/small.pdf"));
    app.select_output_file(None);
    assert_eq!(app.output_file.as_deref(), Some("/tmp/small.pdf"));
}

#[test]
fn start_requires_files_and_ghostscript() {
    let mut app = PdfCompressorApp::new(PathSyntax::Unix, Some(gs()));
    assert!(app.start_compression().is_none());
    assert!(matches!(&app.compression_status, CompressionStatus::Error(e) if e == "Aucun fichier sélectionné"));
    app.input_file = Some("a.pdf".to_string());
    assert!(app.start_compression().is_none());
    assert!(matches!(&app.compression_status, CompressionStatus::Error(e) if e == "Aucun fichier de sortie défini"));
    app.output_file = Some("b.pdf".to_string());
    app.ghostscript = None;
    assert!(app.start_compression().is_none());
    assert!(matches!(&app.compression_status, CompressionStatus::Error(e) if e == "Ghostscript indisponible"));
}

#[test]
fn a_job_runs_and_its_result_is_shown() {
    let mut app = PdfCompressorApp::new(PathSyntax::Unix, Some(gs()));
    app.select_input_file(Some("in.pdf".to_string()));
    app.choose_level(CompressionLevel::Strong);
    let job = app.start_compression().unwrap();
    assert!(app.awaiting_result);
    assert!(app.is_running());
    assert!(!app.can_compress());
    assert_eq!(job.input, "in.pdf");
    assert_eq!(job.output, "in_compressed.pdf");
    assert_eq!(job.level, CompressionLevel::Strong);
    assert_eq!(job.ghostscript.executable(), "/usr/bin/gs");

    let result = job.run(
        true,
        |_x: &String, _a: &Vec<String>| RunOutcome::Finished { success: true, code: Some(0) },
        |p: &String| if p == "in.pdf" { Ok(1000) } else { Ok(400) },
    );
    app.check_compression_result(ChannelEvent::Empty);
    assert!(app.is_running());
    app.check_compression_result(ChannelEvent::Received(result));
    assert!(!app.awaiting_result);
    match &app.compression_status {
        CompressionStatus::Success(v) => {
            assert_eq!(v.len(), 1);
            assert_eq!(v[0].input_size, 1000);
            assert_eq!(v[0].output_size, 400);
            assert_eq!(v[0].saved_bytes(), 600);
        },
        other => panic!("unexpected {other:?}"),
    }
}

#[test]
fn a_failed_or_lost_job_becomes_an_error() {
    let mut app = PdfCompressorApp::new(PathSyntax::Unix, Some(gs()));
    app.select_input_file(Some("in.pdf".to_string()));
    let job = app.start_compression().unwrap();
    let result = job.run(
        false,
        |_x: &String, _a: &Vec<String>| panic!("must not run"),
        |_p: &String| Ok(1),
    );
    app.check_compression_result(ChannelEvent::Received(result));
    assert!(matches!(&app.compression_status, CompressionStatus::Error(e) if e == "Le fichier d'entrée 'in.pdf' n'existe pas"));

    let _ = app.start_compression().unwrap();
    app.check_compression_result(ChannelEvent::Disconnected);
    assert!(matches!(&app.compression_status, CompressionStatus::Error(e) if e == "Le thread de compression s'est interrompu"));
    assert!(!app.awaiting_result);

    // Nothing awaited: events change nothing.
    app.check_compression_result(ChannelEvent::Received(Err("late".to_string())));
    assert!(matches!(&app.compression_status, CompressionStatus::Error(e) if e == "Le thread de compression s'est interrompu"));
}

#[test]
fn size_errors_come_input_first() {
    let r = compression_report("a".to_string(), "b".to_string(), Err("in".to_string()), Err("out".to_string()));
    assert_eq!(r.unwrap_err(), "in");
    let r = compression_report("a".to_string(), "b".to_string(), Ok(3), Err("out".to_string()));
    assert_eq!(r.unwrap_err(), "out");
}

#[test]
fn choosing_ghostscript_by_hand() {
    let mut app = PdfCompressorApp::new(PathSyntax::Unix, None);
    app.select_ghostscript(Some((
        "/bin/true".to_string(),
        VersionProbe::Exited { success: true, stdout: Vec::new() },
    )));
    assert!(app.ghostscript.is_none());
    assert_eq!(
        app.ghostscript_error.as_deref(),
        Some("Impossible de récupérer la version depuis '/bin/true'")
    );
    app.select_ghostscript(Some((
        "/opt/gs".to_string(),
        VersionProbe::Exited { success: true, stdout: b"9.56".to_vec() },
    )));
    assert!(app.ghostscript_error.is_none());
    assert_eq!(app.ghostscript_label(), "Ghostscript 9.56 ✓");
}

#[test]
fn saved_bytes_never_negative() {
    let r = CompressionResult { input: "a".into(), output: "b".into(), input_size: 10, output_size: 25 };
    assert_eq!(r.saved_bytes(), 0);
}

#[test]
fn totals_add_up() {
    let v = vec![
        CompressionResult { input: "a".into(), output: "b".into(), input_size: 10, output_size: 4 },
        CompressionResult { input: "c".into(), output: "d".into(), input_size: 7, output_size: 9 },
    ];
    assert_eq!(total_sizes(&v), (17, 13));
    assert_eq!(total_sizes(&Vec::new()), (0, 0));
}

#[test]
fn chosen_outputs_are_left_alone_by_a_second_pass() {
    let mut app = PdfCompressorApp::new(PathSyntax::Unix, None);
    for picked in ["/tmp/a", "/tmp/b.txt", "/tmp/c.PDF", "/", "..x", "x/.."] {
        app.select_output_file(Some(picked.to_string()));
        let out = app.output_file.clone().unwrap();
        assert_eq!(ensure_pdf_extension(&out), out, "picked {picked:?}");
    }
    app.select_input_file(Some("/docs/r.pdf".to_string()));
    let out = app.output_file.clone().unwrap();
    assert_eq!(ensure_pdf_extension(&out), out);
}
