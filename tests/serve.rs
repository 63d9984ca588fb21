use homefiles::archive::{
    archive_headers, archive_path, content_disposition, download_name, name_from_draws,
    random_archive, random_name, ArchiveType,
};
use homefiles::home::{create_home, home_path, home_subfolders, HomeOutcome};
use homefiles::serve::{
    content_type_or_default, download, extension, get_file_as_byte_vec, get_size_dir,
    preview_content_type, ArchiveError, DownloadPlan, PathKind,
};

#[test]
fn preview_of_pdf_is_application_pdf() {
    assert_eq!(preview_content_type("/home/alice/docs/report.pdf"), "application/pdf");
}

#[test]
fn preview_of_unknown_extension_is_binary() {
    assert_eq!(preview_content_type("/home/alice/docs/notes.zzzunknown"), "application/octet-stream");
    assert_eq!(preview_content_type("/home/alice/docs/README"), "application/octet-stream");
}

#[test]
fn content_type_fallback() {
    assert_eq!(content_type_or_default(None), "application/octet-stream");
    assert_eq!(content_type_or_default(Some("text/plain".to_string())), "text/plain");
}

#[test]
fn extension_after_last_dot() {
    assert_eq!(extension("a.tar.gz"), "gz");
    assert_eq!(extension("report.pdf"), "pdf");
    assert_eq!(extension("README"), "");
}

#[test]
fn zip_download_of_photos_is_named_photos_zip() {
    assert_eq!(download_name("/home/alice/photos", ArchiveType::Zip), "photos.zip");
    assert_eq!(
        content_disposition("/home/alice/photos", ArchiveType::Zip),
        "attachment; filename=\"photos.zip\""
    );
    assert_eq!(ArchiveType::Zip.content_type(), "application/zip");
}

#[test]
fn targz_download_name_and_type() {
    assert_eq!(download_name("./home/bob/music", ArchiveType::Targz), "music.tar.gz");
    assert_eq!(ArchiveType::Targz.content_type(), "application/x-tar");
    assert_eq!(ArchiveType::Targz.extension(), "tar.gz");
}

#[test]
fn download_plans() {
    assert_eq!(download(PathKind::File, ArchiveType::Zip), DownloadPlan::FileBytes);
    assert_eq!(download(PathKind::Dir, ArchiveType::Zip), DownloadPlan::Archive(ArchiveType::Zip));
    assert_eq!(download(PathKind::Dir, ArchiveType::Targz), DownloadPlan::Archive(ArchiveType::Targz));
    assert_eq!(download(PathKind::Other, ArchiveType::Zip), DownloadPlan::Text("No file".to_string()));
    assert_eq!(download(PathKind::Missing, ArchiveType::Zip), DownloadPlan::Text("Error".to_string()));
}

#[test]
fn empty_body_becomes_placeholder() {
    assert_eq!(get_file_as_byte_vec(vec![]), b"Error".to_vec());
    assert_eq!(get_file_as_byte_vec(vec![1, 2, 3]), vec![1, 2, 3]);
}

#[test]
fn random_names_are_alphanumeric_and_distinct() {
    let a = random_name();
    let b = random_name();
    assert_eq!(a.len(), 10);
    assert!(a.chars().all(|c| c.is_ascii_alphanumeric()));
    assert_ne!(a, b);
}

#[test]
fn archive_paths_live_under_temp() {
    assert_eq!(archive_path("abcDEF1234", ArchiveType::Zip), "./temp/abcDEF1234.zip");
    let p = random_archive(ArchiveType::Targz);
    assert!(p.starts_with("./temp/"));
    assert!(p.ends_with(".tar.gz"));
    assert_eq!(p.len(), "./temp/".len() + 10 + ".tar.gz".len());
    assert_ne!(random_archive(ArchiveType::Zip), random_archive(ArchiveType::Zip));
}

#[test]
fn archive_error_messages() {
    assert_eq!(ArchiveError::Io.message(), "I/O Error");
    assert_eq!(ArchiveError::InvalidArchive.message(), "Invalid Archive");
    assert_eq!(ArchiveError::UnsupportedArchive.message(), "Unsupported Archive");
    assert_eq!(ArchiveError::FileNotFound.message(), "File not found");
}

#[test]
fn directory_size_skips_unreadable() {
    assert_eq!(get_size_dir(&vec![Some(10), None, Some(32)]), 42);
    assert_eq!(get_size_dir(&vec![]), 0);
}

#[test]
fn home_creation_answers() {
    let ok = create_home(HomeOutcome::Created);
    assert!(ok.result);
    assert_eq!(ok.body, "Your request has been accepted");
    let exists = create_home(HomeOutcome::Failed(Some(17)));
    assert!(!exists.result);
    assert_eq!(exists.body, "User Already Exist");
    let other = create_home(HomeOutcome::Failed(Some(13)));
    assert_eq!(other.body, "Unknow Error");
    assert_eq!(create_home(HomeOutcome::Failed(None)).body, "Unknow Error");
    assert_eq!(home_path("alice"), "./home/alice");
    assert_eq!(home_subfolders(), vec!["photo", "video", "music", "document"]);
}

#[test]
fn archive_headers_of_photos_zip() {
    let (ct, cd) = archive_headers("/home/alice/photos", ArchiveType::Zip);
    assert_eq!(ct, "application/zip");
    assert_eq!(cd, "attachment; filename=\"photos.zip\"");
    let (ct, cd) = archive_headers("/home/alice/photos", ArchiveType::Targz);
    assert_eq!(ct, "application/x-tar");
    assert_eq!(cd, "attachment; filename=\"photos.tar.gz\"");
}

#[test]
fn name_spelled_by_draws() {
    assert_eq!(name_from_draws(&vec![0, 25, 26, 51, 52, 61, 1, 27, 53, 0]), "azAZ09bB1a");
}
