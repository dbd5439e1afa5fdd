use pi_web::file::types::{
    document_preview_kind, get_audio_mime, get_document_mime, get_file_ext, get_image_mime,
    is_audio_path, is_document_preview_path, is_image_path, DocumentPreviewKind,
};

#[test]
fn file_ext() {
    assert_eq!(get_file_ext("/a/b/c.RS"), "rs");
    assert_eq!(get_file_ext("noext"), "noext");
}

#[test]
fn file_ext_backslash_and_dots() {
    assert_eq!(get_file_ext(r"C:\dir.d\archive.TAR.GZ"), "gz");
    assert_eq!(get_file_ext("dir.d/"), "");
}

#[test]
fn image_mime_lookup() {
    assert_eq!(get_image_mime("test.png"), Some("image/png"));
    assert_eq!(get_image_mime("test.JPG"), Some("image/jpeg"));
    assert_eq!(get_image_mime("test.txt"), None);
}

#[test]
fn audio_and_document_mime_lookup() {
    assert_eq!(get_audio_mime("a.opus"), Some("audio/ogg"));
    assert_eq!(get_audio_mime("a.webm"), Some("audio/webm"));
    assert_eq!(get_document_mime("a.PDF"), Some("application/pdf"));
    assert_eq!(get_document_mime("a.txt"), None);
    assert!(is_image_path("x.avif"));
    assert!(!is_audio_path("x.png"));
    assert!(is_document_preview_path("x.docx"));
}

#[test]
fn document_kind() {
    assert_eq!(
        document_preview_kind("doc.pdf"),
        Some(DocumentPreviewKind::Pdf)
    );
    assert_eq!(
        document_preview_kind("doc.docx"),
        Some(DocumentPreviewKind::Docx)
    );
    assert_eq!(document_preview_kind("doc.txt"), None);
}
