use openzax::market::MarketplaceError;
use openzax::market::ReviewStatus;
use openzax::market::SkillCategory;
use openzax::market::SkillSortOrder;
use openzax::market_api::check_downloadable;
use openzax::market_api::check_review;
use openzax::market_api::check_submission;
use openzax::market_api::initial_review_status;
use openzax::market_api::list_skills_query;
use openzax::market_api::login;
use openzax::market_api::parse_sort;
use openzax::market_api::search_query;
use openzax::market_api::split_tags;
use openzax::market_api::ListSkillsParams;
use openzax::market_api::LoginRequest;
use openzax::market_api::SearchParams;
use openzax::market_api::SubmitReviewRequest;
use openzax::market_api::SubmitSkillRequest;

fn params() -> ListSkillsParams {
    ListSkillsParams {
        category: None,
        tags: None,
        max_price: None,
        free_only: None,
        sort: None,
        page: None,
        per_page: None,
    }
}

#[test]
fn listing_defaults() {
    let q = list_skills_query(&params()).unwrap();
    assert!(q.query.is_none());
    assert!(q.category.is_none());
    assert!(q.tags.is_empty());
    assert!(!q.free_only);
    assert_eq!(q.sort, SkillSortOrder::Trending);
    assert_eq!(q.page, 1);
    assert_eq!(q.per_page, 20);
}

#[test]
fn listing_reads_its_parameters() {
    let mut p = params();
    p.category = Some("security".to_string());
    p.tags = Some("a,,b,".to_string());
    p.max_price = Some(500);
    p.free_only = Some(true);
    p.sort = Some("price_high".to_string());
    p.page = Some(3);
    p.per_page = Some(1000);
    let q = list_skills_query(&p).unwrap();
    assert_eq!(q.category, Some(SkillCategory::Security));
    assert_eq!(q.tags, vec!["a".to_string(), "b".to_string()]);
    assert_eq!(q.max_price_cents, Some(500));
    assert!(q.free_only);
    assert_eq!(q.sort, SkillSortOrder::PriceHigh);
    assert_eq!(q.page, 3);
    assert_eq!(q.per_page, 100);
    p.category = Some("games".to_string());
    match list_skills_query(&p) {
        Err(MarketplaceError::InvalidCategory(m)) => assert_eq!(m, "games"),
        _ => panic!("expected an invalid category"),
    }
}

#[test]
fn sort_names() {
    assert_eq!(parse_sort(&Some("newest".to_string())), SkillSortOrder::Newest);
    assert_eq!(parse_sort(&Some("rating".to_string())), SkillSortOrder::Rating);
    assert_eq!(parse_sort(&Some("downloads".to_string())), SkillSortOrder::Downloads);
    assert_eq!(parse_sort(&Some("price_low".to_string())), SkillSortOrder::PriceLow);
    assert_eq!(parse_sort(&Some("other".to_string())), SkillSortOrder::Trending);
    assert_eq!(parse_sort(&None), SkillSortOrder::Trending);
    assert!(split_tags(&None).is_empty());
    assert!(split_tags(&Some(String::new())).is_empty());
}

#[test]
fn search_reads_its_text() {
    let q = search_query(&SearchParams { q: "lint".to_string(), page: Some(2), per_page: None });
    assert_eq!(q.query, Some("lint".to_string()));
    assert_eq!(q.page, 2);
    assert_eq!(q.per_page, 20);
}

fn submission() -> SubmitSkillRequest {
    SubmitSkillRequest {
        name: "n".to_string(),
        version: "1.0.0".to_string(),
        description: "d".to_string(),
        license: "MIT".to_string(),
        category: "utilities".to_string(),
        tags: vec![],
        permissions_required: vec![],
        price_cents: 0,
        wasm_base64: "AGFzbQ==".to_string(),
        signature_hex: "0aff".to_string(),
        signer_pubkey_hex: "01".to_string(),
        manifest_hash: "h".to_string(),
        author_id: "67e55044-10b1-426f-9247-bb680e5fe0c8".to_string(),
        author_name: "a".to_string(),
    }
}

#[test]
fn submissions_are_checked_in_turn() {
    let ok = check_submission(&submission()).unwrap();
    assert_eq!(ok.wasm, vec![0x00, 0x61, 0x73, 0x6d]);
    assert_eq!(ok.signature, vec![0x0a, 0xff]);
    assert_eq!(ok.signer_pubkey, vec![0x01]);
    assert_eq!(ok.category, SkillCategory::Utilities);
    assert_eq!(ok.author_id, 0x67e5504410b1426f9247bb680e5fe0c8);

    let mut bad = submission();
    bad.wasm_base64 = "!!".to_string();
    match check_submission(&bad) {
        Err(MarketplaceError::InvalidWasm(m)) => assert_eq!(m, "base64 decode failed: invalid base64 characters"),
        _ => panic!("expected invalid wasm"),
    }
    let mut bad = submission();
    bad.signature_hex = "abc".to_string();
    match check_submission(&bad) {
        Err(MarketplaceError::SignatureError(m)) => assert_eq!(m, "signature decode: odd hex length"),
        _ => panic!("expected a signature error"),
    }
    let mut bad = submission();
    bad.signer_pubkey_hex = "zz".to_string();
    match check_submission(&bad) {
        Err(MarketplaceError::SignatureError(m)) => assert_eq!(m, "pubkey decode: invalid digit found in string"),
        _ => panic!("expected a key error"),
    }
    let mut bad = submission();
    bad.category = "nope".to_string();
    assert!(matches!(check_submission(&bad), Err(MarketplaceError::InvalidCategory(_))));
    let mut bad = submission();
    bad.author_id = "not-a-uuid".to_string();
    match check_submission(&bad) {
        Err(MarketplaceError::InvalidCategory(m)) => assert_eq!(m, "invalid author_id UUID"),
        _ => panic!("expected an invalid author"),
    }
}

#[test]
fn reviews_and_downloads() {
    let mut r = SubmitReviewRequest {
        reviewer_id: "67e55044-10b1-426f-9247-bb680e5fe0c8".to_string(),
        rating: 0,
        comment: "c".to_string(),
        is_community_review: false,
    };
    assert!(matches!(check_review(&r), Err(MarketplaceError::InvalidRating)));
    r.rating = 5;
    assert_eq!(check_review(&r).unwrap(), 0x67e5504410b1426f9247bb680e5fe0c8);
    r.reviewer_id = "x".to_string();
    match check_review(&r) {
        Err(MarketplaceError::InvalidCategory(m)) => assert_eq!(m, "invalid reviewer_id"),
        _ => panic!("expected an invalid identifier"),
    }
    assert!(check_downloadable(&ReviewStatus::Approved).is_ok());
    match check_downloadable(&ReviewStatus::Pending) {
        Err(MarketplaceError::PermissionDenied(m)) => assert_eq!(m, "Skill is not yet approved for download"),
        _ => panic!("expected a refusal"),
    }
    assert!(matches!(initial_review_status(true), ReviewStatus::AutoScanPassed));
    assert!(matches!(initial_review_status(false), ReviewStatus::AutoScanFailed));
}

#[test]
fn logins_get_placeholder_tokens() {
    let r = login(&LoginRequest { username: "dev".to_string(), password: "pw".to_string() });
    assert_eq!(r.token, "placeholder-jwt-for-dev");
    assert_eq!(r.expires_in, 86400);
    assert_eq!(r.developer_id.len(), 36);
}
