use base64::Engine as _;
use agency::attachment::{
    attachment_block, attachment_label, audio_format_for_extension, build_attachment,
    guess_audio_format, guess_media_type, media_type_for_extension,
};
use agency::message::{ContentBlock, ImageData};

#[test]
fn media_types_by_extension() {
    assert_eq!(media_type_for_extension("png"), "image/png");
    assert_eq!(media_type_for_extension("JPG"), "image/jpeg");
    assert_eq!(media_type_for_extension("jpeg"), "image/jpeg");
    assert_eq!(media_type_for_extension("gif"), "image/gif");
    assert_eq!(media_type_for_extension("webp"), "image/webp");
    assert_eq!(media_type_for_extension("pdf"), "application/pdf");
    assert_eq!(media_type_for_extension("txt"), "text/plain");
    assert_eq!(media_type_for_extension("md"), "text/markdown");
    assert_eq!(media_type_for_extension("json"), "application/json");
    assert_eq!(media_type_for_extension("exe"), "application/octet-stream");
    assert_eq!(media_type_for_extension(""), "application/octet-stream");
}

#[test]
fn media_type_of_a_path() {
    assert_eq!(guess_media_type("pics/cat.PNG"), "image/png");
    assert_eq!(guess_media_type("README"), "application/octet-stream");
    assert_eq!(guess_media_type("archive.tar.gz"), "application/octet-stream");
}

#[test]
fn audio_formats() {
    assert_eq!(audio_format_for_extension("wav"), Some("wav"));
    assert_eq!(audio_format_for_extension("MP3"), Some("mp3"));
    assert_eq!(audio_format_for_extension("ogg"), None);
    assert_eq!(guess_audio_format("a/b/song.Mp3"), Some("mp3"));
    assert_eq!(guess_audio_format("noext"), None);
}

#[test]
fn image_attachment_is_base64_encoded() {
    match attachment_block("cat.png", b"hello") {
        ContentBlock::Image { media_type, data: ImageData::Base64(d) } => {
            assert_eq!(media_type, "image/png");
            assert_eq!(d, "aGVsbG8=");
        }
        other => panic!("image expected, got {other:?}"),
    }
}

#[test]
fn audio_attachment_keeps_format() {
    match attachment_block("clip.WAV", b"ab") {
        ContentBlock::Audio { format, data } => {
            assert_eq!(format, "wav");
            assert_eq!(data, "YWI=");
        }
        other => panic!("audio expected, got {other:?}"),
    }
}

#[test]
fn other_files_are_named_by_their_final_component() {
    match attachment_block("docs/notes.pdf", b"abc") {
        ContentBlock::File { name, media_type, data: ImageData::Base64(d) } => {
            assert_eq!(name, "notes.pdf");
            assert_eq!(media_type, "application/pdf");
            assert_eq!(d, "YWJj");
        }
        other => panic!("file expected, got {other:?}"),
    }
    match attachment_block("x/empty.bin", b"") {
        ContentBlock::File { name, media_type, data: ImageData::Base64(d) } => {
            assert_eq!(name, "empty.bin");
            assert_eq!(media_type, "application/octet-stream");
            assert_eq!(d, "");
        }
        other => panic!("file expected, got {other:?}"),
    }
}

#[test]
fn a_path_without_final_component_names_the_file_by_the_path() {
    match build_attachment("..", None, None, "QQ==".to_string()) {
        ContentBlock::File { name, .. } => assert_eq!(name, ".."),
        other => panic!("file expected, got {other:?}"),
    }
}

#[test]
fn labels() {
    let img = ContentBlock::Image { media_type: "image/gif".into(), data: ImageData::Url("u".into()) };
    assert_eq!(attachment_label(&img), "image (image/gif)");
    let aud = ContentBlock::Audio { format: "mp3".into(), data: String::new() };
    assert_eq!(attachment_label(&aud), "audio (mp3)");
    let file = ContentBlock::File {
        name: "a.txt".into(),
        media_type: "text/plain".into(),
        data: ImageData::Base64(String::new()),
    };
    assert_eq!(attachment_label(&file), "a.txt (text/plain)");
    assert_eq!(attachment_label(&ContentBlock::Text { text: "t".into() }), "attachment");
}

#[test]
fn attachment_data_decodes_back_to_the_bytes() {
    for bytes in [&b""[..], b"a", b"ab", b"abc", b"abcd", &[0u8, 255, 128, 7, 63]] {
        match attachment_block("f.bin", bytes) {
            ContentBlock::File { data: ImageData::Base64(d), .. } => {
                let back = base64::engine::general_purpose::STANDARD.decode(d).unwrap();
                assert_eq!(back, bytes);
            }
            other => panic!("file expected, got {other:?}"),
        }
    }
}
