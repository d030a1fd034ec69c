use picoshrink::compression::{format_file_size, generate_output_path, is_pdf};
use std::path::{Path, PathBuf};

#[test]
fn generate_output_path_adds_compressed_suffix() {
    let input = "document.pdf";

    let output = generate_output_path(input);

    assert_eq!(PathBuf::from(output), PathBuf::from("document_compressed.pdf"));
}

#[test]
fn generate_output_path_preserves_parent_directory() {
    let input = "/tmp/documents/report.pdf";

    let output = generate_output_path(input);

    assert_eq!(
        PathBuf::from(output),
        PathBuf::from("/tmp/documents/report_compressed.pdf")
    );
}

#[test]
fn generate_output_path_handles_multiple_dots() {
    let input = "rapport.final.v2.pdf";

    let output = generate_output_path(input);

    assert_eq!(PathBuf::from(output), PathBuf::from("rapport.final.v2_compressed.pdf"));
}

#[test]
fn accepts_pdf_extension() {
    assert!(is_pdf("document.pdf"));
}

#[test]
fn accepts_mixed_case_pdf_extension() {
    assert!(is_pdf("document.PdF"));
}

#[test]
fn rejects_pdf_when_it_is_not_the_final_extension() {
    assert!(!is_pdf("document.pdf.txt"));
}

#[test]
fn accepts_uppercase_pdf_extension() {
    assert!(is_pdf("document.PDF"));
}

#[test]
fn rejects_non_pdf_extension() {
    assert!(!is_pdf("document.txt"));
}

#[test]
fn rejects_missing_extension() {
    assert!(!is_pdf("document"));
}

#[test]
fn format_file_size_formats_bytes() {
    assert_eq!(format_file_size(0), "0 B");
    assert_eq!(format_file_size(1), "1 B");
    assert_eq!(format_file_size(512), "512 B");
    assert_eq!(format_file_size(1023), "1023 B");
}

#[test]
fn format_file_size_formats_kilobytes() {
    assert_eq!(format_file_size(1024), "1.00 KB");
    assert_eq!(format_file_size(1536), "1.50 KB");
    assert_eq!(format_file_size(10 * 1024), "10.00 KB");
}

#[test]
fn format_file_size_formats_megabytes() {
    assert_eq!(format_file_size(1024 * 1024), "1.00 MB");

    assert_eq!(format_file_size(5 * 1024 * 1024), "5.00 MB");
}

#[test]
fn format_file_size_switches_from_kilobytes_to_megabytes() {
    assert_eq!(format_file_size(1024 * 1024 - 1), "1024.00 KB");

    assert_eq!(format_file_size(1024 * 1024), "1.00 MB");
}

/// The size text as the floating-point formatting of the desktop build
/// produces it.
fn size_text_by_float(bytes: u64) -> String {
    const KB: f64 = 1024.0;
    const MB: f64 = 1024.0 * 1024.0;
    let bytes = bytes as f64;
    if bytes >= MB {
        format!("{:.2} MB", bytes / MB)
    } else if bytes >= KB {
        format!("{:.2} KB", bytes / KB)
    } else {
        format!("{bytes:.0} B")
    }
}

fn sample_sizes() -> Vec<u64> {
    let mut sizes = vec![
        0,
        1,
        9,
        10,
        99,
        100,
        1023,
        1024,
        1025,
        1152,
        1160,
        1536,
        2047,
        2048,
        10 * 1024,
        1024 * 1024 - 1,
        1024 * 1024,
        1024 * 1024 + 1,
        1024 * 1024 + 5 * 1024,
        (1u64 << 53) - 1,
        1u64 << 53,
        (1u64 << 53) + 1,
        (1u64 << 53) + 2,
        (1u64 << 53) + 3,
        (1u64 << 54) + 2,
        (1u64 << 54) + 6,
        (1u64 << 63) - 1,
        1u64 << 63,
        u64::MAX - 1,
        u64::MAX,
    ];
    let mut x: u64 = 0x9E37_79B9_7F4A_7C15;
    for shift in 0..64 {
        for _ in 0..40 {
            x = x.wrapping_mul(6364136223846793005).wrapping_add(1442695040888963407);
            sizes.push(x >> shift);
        }
    }
    for k in 0..4096u64 {
        sizes.push(1024 + k * 3);
        sizes.push(1024 * 1024 + k * 2560);
    }
    sizes
}

#[test]
fn format_file_size_agrees_with_float_formatting() {
    for bytes in sample_sizes() {
        assert_eq!(format_file_size(bytes), size_text_by_float(bytes), "size {bytes}");
    }
}

#[test]
fn format_file_size_rounds_halves_to_even() {
    // 1152 bytes are exactly 1.125 KB; 1.125 is written with two decimals as 1.12.
    assert_eq!(format_file_size(1152), "1.12 KB");
    // 1664 bytes are exactly 1.625 KB.
    assert_eq!(format_file_size(1664), "1.62 KB");
}

#[test]
fn format_file_size_largest_size() {
    assert_eq!(format_file_size(u64::MAX), "17592186044416.00 MB");
}

fn is_pdf_by_std(path: &str) -> bool {
    Path::new(path)
        .extension()
        .and_then(|ext| ext.to_str())
        .is_some_and(|ext| ext.eq_ignore_ascii_case("pdf"))
}

fn output_path_by_std(input: &str) -> String {
    let input = Path::new(input);
    let parent = input.parent().unwrap_or_else(|| Path::new("."));
    let stem = input
        .file_stem()
        .and_then(|name| name.to_str())
        .unwrap_or("document");
    parent
        .join(format!("{stem}_compressed.pdf"))
        .to_str()
        .unwrap()
        .to_string()
}

pub fn sample_paths() -> Vec<&'static str> {
    vec![
        "", "/", "//", ".", "..", "./", "./.", ".//", "a", "a/", "a//", "a/.", "a/./", "a/..",
        "/a", "//a", "/a/", "/.", "./a", ".//a", "a/b/c.txt", "a.b.c", ".hidden", "..x", "x..",
        "a.", ".a.b", "dir/.hidden.pdf", "/tmp/documents/report.pdf", "rapport.final.v2.pdf",
        "été/résumé.PDF", "a/b.txt/", "x.y.zz/", "a.bc/./", "a/../b.pdf", "../x.pdf", "...",
        "a/...", "/..", "./..", "./../a.pdf", " . /x", "a b.pdf", "a\\b.pdf", "doc.pdf/", "doc.Pdf",
        "doc.pdfx", "doc.pd", ".pdf", "..pdf", "a/.pdf", "pdf", "/pdf.", "x/./y/./z.PDF/.",
        "a/b/../c", "./.hidden", "/./a.pdf", "//x//y//", "résumé", "日本語.pdf", "a.ｐｄｆ",
    ]
}

#[test]
fn is_pdf_agrees_with_std_paths() {
    for p in sample_paths() {
        assert_eq!(is_pdf(p), is_pdf_by_std(p), "path {p:?}");
    }
}

#[test]
fn generate_output_path_agrees_with_std_paths() {
    for p in sample_paths() {
        assert_eq!(generate_output_path(p), output_path_by_std(p), "path {p:?}");
    }
}

#[test]
fn generate_output_path_without_file_name() {
    assert_eq!(generate_output_path("/"), "./document_compressed.pdf");
    assert_eq!(generate_output_path(""), "./document_compressed.pdf");
    assert_eq!(generate_output_path(".."), "document_compressed.pdf");
    assert_eq!(generate_output_path("a/.."), "a/document_compressed.pdf");
}

#[test]
fn generate_output_path_is_a_pdf_path() {
    for p in sample_paths() {
        assert!(is_pdf(&generate_output_path(p)), "path {p:?}");
    }
}

#[test]
fn generate_output_path_keeps_the_directory() {
    for p in sample_paths() {
        if let Some(dir) = Path::new(p).parent() {
            let out = generate_output_path(p);
            assert_eq!(Path::new(&out).parent(), Some(dir), "path {p:?}");
        }
    }
}

#[test]
fn generate_output_path_never_names_the_input() {
    for p in sample_paths() {
        let out = generate_output_path(p);
        assert!(!picoshrink::path::same_path(picoshrink::path::PathSyntax::Unix, &out, p), "path {p:?}");
        assert_ne!(Path::new(&out), Path::new(p), "path {p:?}");
    }
}
