use picoshrink::app::{ensure_pdf_extension_in, file_label, PdfCompressorApp};
use picoshrink::compression::{generate_output_path_in, is_pdf_in};
use picoshrink::ghostscript::compression_command;
use picoshrink::models::CompressionLevel;
use picoshrink::path::{
    path_components, path_extension, path_file_name, path_file_stem, path_join, path_parent,
    path_with_extension, same_path, PathSyntax,
};

const W: PathSyntax = PathSyntax::Windows;

fn some(s: &str) -> Option<String> {
    Some(s.to_string())
}

#[test]
fn windows_file_names() {
    assert_eq!(path_file_name(W, r"C:\a\b.pdf"), some("b.pdf"));
    assert_eq!(path_file_name(W, r"C:\a\b.pdf\"), some("b.pdf"));
    assert_eq!(path_file_name(W, "a/b\\c.pdf"), some("c.pdf"));
    assert_eq!(path_file_name(W, "C:b.pdf"), some("b.pdf"));
    assert_eq!(path_file_name(W, "C:"), None);
    assert_eq!(path_file_name(W, r"C:\"), None);
    assert_eq!(path_file_name(W, r"C:\a\."), some("a"));
    assert_eq!(path_file_name(W, r"C:\a\.."), None);
    assert_eq!(path_file_name(W, r"\\srv\share"), None);
    assert_eq!(path_file_name(W, r"\\srv\share\x.pdf"), some("x.pdf"));
    assert_eq!(path_file_name(W, "//srv/share/x.pdf"), some("x.pdf"));
    assert_eq!(path_file_name(W, r"\\.\COM1"), None);
    assert_eq!(path_file_name(W, r"\\?\C:\a\b.pdf"), some("b.pdf"));
    assert_eq!(path_file_name(W, r"\\?\C:\a/b.pdf"), some("a/b.pdf"));
    assert_eq!(path_file_name(W, r"\\?\C:\a\."), None);
    assert_eq!(path_file_name(W, r"\\?\UNC\srv\sh\x.pdf"), some("x.pdf"));
    assert_eq!(path_file_stem(W, r"C:\my.dir\out.tar.gz"), some("out.tar"));
    assert_eq!(path_extension(W, r"C:\my.dir\out"), None);
    assert_eq!(path_extension(W, r"C:\my.dir\out.PDF"), some("PDF"));
}

#[test]
fn windows_parents() {
    assert_eq!(path_parent(W, r"C:\a\b.pdf"), some(r"C:\a"));
    assert_eq!(path_parent(W, r"C:\b.pdf"), some(r"C:\"));
    assert_eq!(path_parent(W, "C:b.pdf"), some("C:"));
    assert_eq!(path_parent(W, r"C:\"), None);
    assert_eq!(path_parent(W, "C:"), None);
    assert_eq!(path_parent(W, r"C:.\b"), some("C:."));
    assert_eq!(path_parent(W, r"a\b"), some("a"));
    assert_eq!(path_parent(W, "b"), some(""));
    assert_eq!(path_parent(W, r".\b"), some("."));
    assert_eq!(path_parent(W, "."), some(""));
    assert_eq!(path_parent(W, r"\\srv\share\x.pdf"), some(r"\\srv\share\"));
    assert_eq!(path_parent(W, r"\\srv\share"), None);
    assert_eq!(path_parent(W, r"\\?\C:\a\b"), some(r"\\?\C:\a"));
    assert_eq!(path_parent(W, r"\\?\UNC\srv\sh\x.pdf"), some(r"\\?\UNC\srv\sh\"));
}

#[test]
fn windows_joins() {
    assert_eq!(path_join(W, r"C:\docs", "r.pdf"), r"C:\docs\r.pdf");
    assert_eq!(path_join(W, r"C:\docs\", "r.pdf"), r"C:\docs\r.pdf");
    assert_eq!(path_join(W, "C:/docs/", "r.pdf"), "C:/docs/r.pdf");
    assert_eq!(path_join(W, "C:", "r.pdf"), "C:r.pdf");
    assert_eq!(path_join(W, "", "r.pdf"), "r.pdf");
    assert_eq!(path_join(W, r"D:\x", "C:y.pdf"), "C:y.pdf");
    assert_eq!(path_join(W, r"D:\x", r"\y.pdf"), r"D:\y.pdf");
    assert_eq!(path_join(W, r"\\?\C:\a\\b\", "r.pdf"), r"\\?\C:\a\b\r.pdf");
    assert_eq!(path_join(W, r"\\?\C:\a\b", "../r.pdf"), r"\\?\C:\a\r.pdf");
    assert_eq!(path_join(W, r"\\?\C:\a\b", "/r.pdf"), r"\\?\C:\r.pdf");
    assert_eq!(path_join(W, r"\\?\C:", "r.pdf"), r"\\?\C:\r.pdf");
}

#[test]
fn windows_extension_replacement() {
    assert_eq!(path_with_extension(W, r"C:\my.dir\out", "pdf"), r"C:\my.dir\out.pdf");
    assert_eq!(path_with_extension(W, r"C:\my.dir\out.txt", "pdf"), r"C:\my.dir\out.pdf");
    assert_eq!(path_with_extension(W, "C:", "pdf"), "C:");
    assert_eq!(ensure_pdf_extension_in(W, r"C:\my.dir\out"), r"C:\my.dir\out.pdf");
    assert_eq!(ensure_pdf_extension_in(W, r"C:\my.dir\out.PDF"), r"C:\my.dir\out.PDF");
    assert_eq!(ensure_pdf_extension_in(W, r"C:\a\b.txt"), r"C:\a\b.pdf");
    assert_eq!(ensure_pdf_extension_in(W, r"\\?\C:\a\b.txt"), r"\\?\C:\a\b.pdf");
}

#[test]
fn windows_pdf_names() {
    assert!(is_pdf_in(W, r"C:\x\Doc.PDF"));
    assert!(is_pdf_in(W, r"C:\x\doc.pdf\."));
    assert!(!is_pdf_in(W, r"\\?\C:\doc.pdf\."));
    assert!(!is_pdf_in(W, r"C:\x.pdf\y"));
}

#[test]
fn windows_default_outputs() {
    assert_eq!(generate_output_path_in(W, r"C:\docs\report.pdf"), r"C:\docs\report_compressed.pdf");
    assert_eq!(generate_output_path_in(W, r"C:\my.dir\out"), r"C:\my.dir\out_compressed.pdf");
    assert_eq!(generate_output_path_in(W, "C:report.pdf"), "C:report_compressed.pdf");
    assert_eq!(generate_output_path_in(W, "report.pdf"), "report_compressed.pdf");
    assert_eq!(generate_output_path_in(W, r"C:\report.pdf"), r"C:\report_compressed.pdf");
    assert_eq!(generate_output_path_in(W, r"D:\x\C:y.pdf"), "C:y_compressed.pdf");
    assert_eq!(
        generate_output_path_in(W, r"\\?\C:\a\\b\.\r.pdf"),
        r"\\?\C:\a\b\.\r_compressed.pdf"
    );
    assert_eq!(generate_output_path_in(W, r"\\srv\share\r.pdf"), r"\\srv\share\r_compressed.pdf");
    assert_eq!(generate_output_path_in(W, "//srv/share"), r".\document_compressed.pdf");
}

#[test]
fn windows_same_file_check() {
    let same = |a: &str, b: &str| {
        compression_command(W, a, b, CompressionLevel::Balanced, true).is_err()
    };
    assert!(same(r"C:\a\x.pdf", "c:/a//x.pdf"));
    assert!(same(r"\\srv\sh\x.pdf", "//srv/sh/x.pdf"));
    assert!(!same(r"\\?\C:\x.pdf", r"C:\x.pdf"));
    assert!(!same(r"C:\A.pdf", r"C:\a.pdf"));
    assert!(!same(r"C:\a", "C:a"));
    assert!(same_path(W, r"C:\a\.\b", r"C:\a\b"));
    assert!(!same_path(W, r"\\?\C:\a\.\b", r"\\?\C:\a\b"));
    assert_eq!(path_components(W, r"C:\a\b"), vec!["\\", "a", "b"]);
    assert_eq!(path_components(W, r"\\srv\sh"), vec!["\\"]);
    assert_eq!(path_components(W, r".\a"), vec![".", "a"]);
}

#[test]
fn windows_state_uses_windows_paths() {
    assert_eq!(file_label(W, r"C:\docs\r.pdf", "Document PDF"), "r.pdf");
    let mut app = PdfCompressorApp::new(W, None);
    app.select_input_file(Some(r"C:\d\r.pdf".to_string()));
    assert_eq!(app.output_file, some(r"C:\d\r_compressed.pdf"));
    app.select_output_file(Some(r"C:\my.dir\out".to_string()));
    assert_eq!(app.output_file, some(r"C:\my.dir\out.pdf"));
    assert_eq!(app.suggested_output_name(), some("out.pdf"));
}

#[test]
fn windows_default_output_edge_cases() {
    // A verbatim file name that starts with `//` gives a default output that
    // reads as a share, with no file name, so it is not a PDF name.
    let out = generate_output_path_in(W, r"\\?\C:\//a/b.pdf");
    assert_eq!(out, "//a/b_compressed.pdf");
    assert!(!is_pdf_in(W, &out));
    assert_eq!(path_file_name(W, &out), None);
    // A file name with a drive makes the default output leave the directory.
    let out = generate_output_path_in(W, r"D:\x\C:y.pdf");
    assert_eq!(path_parent(W, &out), some("C:"));
    assert_ne!(path_parent(W, &out), path_parent(W, r"D:\x\C:y.pdf"));
}

#[test]
fn windows_ensure_pdf_extension_keeps_the_directory() {
    for p in [r"C:\my.dir\out", r"C:\a\b.txt", r"C:\a\b.PDF", r"\\srv\sh\x", r"\\?\C:\a\b.c", "C:x.y", r"a\b\"] {
        let r = ensure_pdf_extension_in(W, p);
        assert!(is_pdf_in(W, &r), "pdf {p:?}");
        assert_eq!(path_parent(W, &r), path_parent(W, p), "parent {p:?}");
        assert_eq!(r == p, is_pdf_in(W, p), "unchanged {p:?}");
        assert_eq!(ensure_pdf_extension_in(W, &r), r, "twice {p:?}");
    }
}
