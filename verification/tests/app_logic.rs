use cognitrade::analysis::{
    assistant_message, decode_screenshot, encode_image, history_from_messages, plan_symbol,
    retrieval_query, screenshot_file_name, symbol_from_reply, symbol_or_default, user_message,
    AnalyzeReq, Message, SymbolSource,
};
use cognitrade::error::AppError;
use cognitrade::image_util::needs_resize;
use cognitrade::ingest::{
    check_image_for_description, classify_extension, description_chunks, description_from_reply, file_hash,
    ingest_path_kind, pdf_chunks, IngestKind, PdfText,
};
use cognitrade::llm::prompt::MessageContent;
use cognitrade::paths::Paths;
use cognitrade::settings::{check_api_key_value, require_api_key};
use cognitrade::watcher::Debouncer;

#[test]
fn api_key_required() {
    assert_eq!(require_api_key(Some("sk-1".into())), Ok("sk-1".to_string()));
    assert_eq!(require_api_key(None), Err(AppError::NoApiKey));
}

#[test]
fn blank_api_key_refused() {
    assert_eq!(check_api_key_value("  \t "), Err(AppError::Invalid("empty api key".into())));
    assert_eq!(check_api_key_value(""), Err(AppError::Invalid("empty api key".into())));
    assert_eq!(check_api_key_value(" sk-x "), Ok(()));
}

#[test]
fn paths_under_home() {
    let p = Paths::new("/home/u".to_string());
    let root = std::path::Path::new("/home/u").join("CogniTrade");
    assert_eq!(p.root, root.to_string_lossy());
    assert_eq!(p.library(), root.join("library").to_string_lossy());
    assert_eq!(p.screenshots(), root.join("screenshots").to_string_lossy());
    assert_eq!(p.data(), root.join("data").to_string_lossy());
    assert_eq!(p.lancedb(), root.join("data").join("vec.db").to_string_lossy());
    assert_eq!(p.chat_db(), root.join("data").join("chat.db").to_string_lossy());
    assert_eq!(p.logs(), root.join("logs").to_string_lossy());
}

fn msg(id: i64, role: &str, content: &str) -> Message {
    Message { id, ts: id, role: role.into(), content: content.into(), image_path: None, prediction_id: None }
}

#[test]
fn history_skips_the_new_message() {
    let msgs = vec![msg(1, "user", "q1"), msg(2, "assistant", "a1"), msg(3, "user", "q2")];
    let h = history_from_messages(&msgs, 3);
    assert_eq!(h.len(), 2);
    assert_eq!(h[0].role, "user");
    assert!(matches!(&h[0].content, MessageContent::Text(t) if t == "q1"));
    assert!(matches!(&h[1].content, MessageContent::Text(t) if t == "a1"));
}

#[test]
fn records_of_a_turn() {
    let req = AnalyzeReq { user_text: "look".into(), screenshot_path: Some("/s.png".into()), symbol_hint: None };
    let u = user_message(&req);
    assert_eq!((u.role.as_str(), u.content.as_str(), u.image_path.as_deref(), u.prediction_id), ("user", "look", Some("/s.png"), None));
    let a = assistant_message("answer".into(), Some(7));
    assert_eq!((a.role.as_str(), a.content.as_str(), a.image_path, a.prediction_id), ("assistant", "answer", None, Some(7)));
}

#[test]
fn symbol_plan() {
    assert_eq!(plan_symbol(Some("  ethusdt ".into()), true), SymbolSource::Hint("ETHUSDT".into()));
    assert_eq!(plan_symbol(Some("   ".into()), true), SymbolSource::FromImage);
    assert_eq!(plan_symbol(None, true), SymbolSource::FromImage);
    assert_eq!(plan_symbol(None, false), SymbolSource::Default);
    assert_eq!(symbol_or_default(Ok("SOL".into())), "SOL");
    assert_eq!(symbol_or_default(Err(AppError::NoApiKey)), "BTCUSDT");
}

#[test]
fn symbol_from_model_reply() {
    assert_eq!(symbol_from_reply(&vec![Some("  btcusdt is shown".into())]), Ok("BTCUSDT".to_string()));
    assert_eq!(symbol_from_reply(&vec![None, Some("sol".into()), Some("x".into())]), Ok("SOL".to_string()));
    assert_eq!(symbol_from_reply(&vec![Some("unknown".into())]), Err(AppError::Invalid("could not extract symbol".into())));
    assert_eq!(symbol_from_reply(&vec![Some("   ".into())]), Err(AppError::Invalid("could not extract symbol".into())));
    assert_eq!(symbol_from_reply(&vec![]), Err(AppError::Invalid("could not extract symbol".into())));
}

#[test]
fn query_and_file_name() {
    assert_eq!(retrieval_query("BTCUSDT"), "BTCUSDT chart pattern analysis");
    assert_eq!(screenshot_file_name(Some("chart".into()), "abc"), "chart-abc.png");
    assert_eq!(screenshot_file_name(None, "abc"), "abc-abc.png");
}

#[test]
fn base64_screenshot() {
    assert_eq!(decode_screenshot("ZmFrZQ=="), Ok(b"fake".to_vec()));
    assert_eq!(encode_image(b"fake"), "ZmFrZQ==");
    assert_eq!(encode_image(b""), "");
    assert_eq!(encode_image(b"Man"), "TWFu");
    assert_eq!(encode_image(&[0xfb, 0xff]), "+/8=");
    assert_eq!(encode_image(&[0, 16, 131, 16, 81, 135, 32, 146, 139]), "ABCDEFGHIJKL");
    match decode_screenshot("not base64!") {
        Err(AppError::Invalid(m)) => assert!(m.starts_with("base64: ")),
        other => panic!("unexpected {:?}", other),
    }
}

#[test]
fn resize_decision() {
    assert_eq!(needs_resize(6 * 1024 * 1024, None), Some(true));
    assert_eq!(needs_resize(1000, None), None);
    assert_eq!(needs_resize(1000, Some((100, 100))), Some(false));
    assert_eq!(needs_resize(1000, Some((2400, 1200))), Some(true));
    assert_eq!(needs_resize(1000, Some((1568, 1568))), Some(false));
}

#[test]
fn hash_of_contents() {
    assert_eq!(file_hash(b""), "e3b0c44298fc1c149afbf4c8996fb92427ae41e4649b934ca495991b7852b855");
    assert_eq!(file_hash(b"abc"), "ba7816bf8f01cfea414140de5dae2223b00361a396177a9cb410ff61f20015ad");
}

#[test]
fn pdf_without_text_is_refused() {
    let pdf = PdfText { full_text: "  \n ".into() };
    assert_eq!(pdf_chunks("/d/a.pdf", &pdf), Err(AppError::Invalid("no text in /d/a.pdf".into())));
    let pdf = PdfText { full_text: "Some text.".into() };
    assert_eq!(pdf_chunks("/d/a.pdf", &pdf), Ok(vec!["Some text.".to_string()]));
}

#[test]
fn description_is_chunked_like_a_pdf() {
    assert!(description_chunks("   ").is_empty());
    assert_eq!(description_chunks("A  rising\nwedge."), vec!["A rising wedge.".to_string()]);
    let long = "Price broke out above resistance. ".repeat(100);
    let chunks = description_chunks(&long);
    let pdf = PdfText { full_text: long.clone() };
    assert_eq!(pdf_chunks("/d/x.png", &pdf), Ok(chunks.clone()));
    assert!(chunks.len() >= 2);
}

#[test]
fn image_checks() {
    assert_eq!(check_image_for_description(10, "/a.PNG", Some("PNG")), Ok("image/png"));
    assert_eq!(check_image_for_description(10, "/a.jpeg", Some("jpeg")), Ok("image/jpeg"));
    assert_eq!(check_image_for_description(10, "/a.jpg", Some("Jpg")), Ok("image/jpeg"));
    assert_eq!(check_image_for_description(10, "/a.webp", Some("webp")), Ok("image/webp"));
    assert_eq!(check_image_for_description(10, "/a.gif", Some("gif")), Err(AppError::Invalid("unsupported image type".into())));
    assert_eq!(check_image_for_description(10, "/a", None), Err(AppError::Invalid("unsupported image type".into())));
    assert_eq!(
        check_image_for_description(5 * 1024 * 1024 + 1, "/big.png", Some("png")),
        Err(AppError::Invalid("image > 5MB: /big.png".into()))
    );
}

#[test]
fn description_reply() {
    assert_eq!(description_from_reply(&vec![Some(" a ".into()), None, Some("b ".into())]), Ok("a \nb".to_string()));
    assert_eq!(description_from_reply(&vec![None]), Err(AppError::Anthropic("empty description".into())));
}

#[test]
fn extension_kinds() {
    assert_eq!(classify_extension(Some("PDF")), (IngestKind::Pdf, "pdf".to_string()));
    assert_eq!(classify_extension(Some("WebP")).0, IngestKind::Image);
    assert_eq!(classify_extension(None), (IngestKind::Unsupported, String::new()));
    assert_eq!(ingest_path_kind(Some("Jpeg")), Ok(IngestKind::Image));
    assert_eq!(ingest_path_kind(Some("TXT")), Err(AppError::Invalid("unsupported extension: txt".into())));
}

#[test]
fn debounce_waits_for_quiet() {
    let mut d = Debouncer::new();
    d.record("/lib/a.pdf".into(), 1000);
    d.record("/lib/b.png".into(), 1500);
    assert!(d.take_settled(1700).is_empty());
    d.record("/lib/a.pdf".into(), 1600);
    assert_eq!(d.take_settled(2300), vec!["/lib/b.png".to_string()]);
    assert_eq!(d.take_settled(2400), vec!["/lib/a.pdf".to_string()]);
    assert!(d.take_settled(10_000).is_empty());
}

#[test]
fn debounce_clock_going_back_is_not_settled() {
    let mut d = Debouncer::new();
    d.record("/x".into(), 5000);
    assert!(d.take_settled(100).is_empty());
    assert_eq!(d.take_settled(5800), vec!["/x".to_string()]);
}
