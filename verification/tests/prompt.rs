use xharness::prompt::{
    check_content, check_part, NameField, PartPlan, PromptError, PromptPart, MAX_FILE_BASE64_BYTES,
};

fn part(kind: &str) -> PromptPart {
    PromptPart {
        kind: Some(kind.to_owned()),
        name: NameField::Absent,
        text: None,
        media_type: None,
        data: None,
        attachment_id: None,
    }
}

#[test]
fn content_is_bounded_and_not_empty() {
    assert_eq!(check_content(&vec![]), Err(PromptError::EmptyContent));
    assert_eq!(check_content(&vec![part("text"); 128]), Ok(()));
    assert_eq!(check_content(&vec![part("text"); 129]), Err(PromptError::TooManyParts));
    let mut big = part("file");
    big.data = Some("a".repeat(100 * 1024 * 1024));
    let mut more = part("file");
    more.data = Some("é".repeat(15 * 1024 * 1024));
    assert_eq!(check_content(&vec![big.clone()]), Ok(()));
    assert_eq!(check_content(&vec![big, more]), Err(PromptError::OverBudget));
}

#[test]
fn parts_are_checked_by_type() {
    let mut text = part("text");
    assert_eq!(check_part(&text), Err(PromptError::TextNeedsString));
    text.text = Some("hi".into());
    assert_eq!(check_part(&text), Ok(PartPlan::Text { text: "hi".into() }));

    let mut image = part("image");
    assert_eq!(check_part(&image), Err(PromptError::ImageNeedsMediaType));
    image.media_type = Some("image/bmp".into());
    assert_eq!(check_part(&image), Err(PromptError::UnsupportedMediaType));
    image.media_type = Some("image/webp".into());
    assert_eq!(check_part(&image), Err(PromptError::ImageNeedsData));
    image.data = Some(String::new());
    assert_eq!(check_part(&image), Err(PromptError::EmptyImage));
    image.data = Some("AAAA".into());
    assert_eq!(
        check_part(&image),
        Ok(PartPlan::Image { media_type: "image/webp".into(), data: "AAAA".into() })
    );

    let mut file = part("file");
    assert_eq!(check_part(&file), Err(PromptError::FileNeedsMediaType));
    file.media_type = Some("text/plain".into());
    assert_eq!(check_part(&file), Err(PromptError::FileNeedsData));
    file.data = Some("A".repeat(MAX_FILE_BASE64_BYTES + 1));
    assert_eq!(check_part(&file), Err(PromptError::FileTooLarge));
    file.data = Some("QQ==".into());
    assert!(matches!(check_part(&file), Ok(PartPlan::File { .. })));

    let mut reference = part("image_ref");
    assert_eq!(check_part(&reference), Err(PromptError::RefNeedsAttachmentId));
    reference.attachment_id = Some("att-1".into());
    assert_eq!(check_part(&reference), Ok(PartPlan::Ref { image: true, attachment_id: "att-1".into() }));
    reference.kind = Some("file_ref".into());
    assert_eq!(check_part(&reference), Ok(PartPlan::Ref { image: false, attachment_id: "att-1".into() }));
    assert_eq!(check_part(&part("video")), Err(PromptError::UnknownPartType));
}

#[test]
fn attachment_names_are_bounded_strings() {
    let mut p = part("text");
    p.text = Some("x".into());
    p.name = NameField::NotText;
    assert_eq!(check_part(&p), Err(PromptError::NameNotText));
    p.name = NameField::Text("a\0b".into());
    assert_eq!(check_part(&p), Err(PromptError::InvalidName));
    p.name = NameField::Text("é".repeat(513));
    assert_eq!(check_part(&p), Err(PromptError::InvalidName));
    p.name = NameField::Text("é".repeat(512));
    assert!(check_part(&p).is_ok());
}
