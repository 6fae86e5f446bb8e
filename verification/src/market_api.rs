//! The marketplace's web requests: reading the parameters of listings and
//! searches, checking a submitted skill package and a review, deciding
//! whether a skill may be downloaded, and answering a login.

use vstd::prelude::*;
use crate::clock::new_uuid;
use crate::codec::base64_decode;
use crate::codec::base64_outcome;
use crate::codec::hex_decode;
use crate::codec::hex_outcome;
use crate::market::category_named;
use crate::market::MarketplaceError;
use crate::market::ReviewStatus;
use crate::market::SkillCategory;
use crate::market::SkillSearchQuery;
use crate::market::SkillSortOrder;
use crate::scanner::split_on;
use crate::scanner::split_chars;
use crate::scanner::string_views;
use crate::text::concat2;
use crate::text::decimal;
use crate::text::u64_to_decimal;
use crate::text::str_eq;
use crate::text::string_from_chars;

verus! {

/// The query parameters of a skill listing.
#[derive(Debug)]
pub struct ListSkillsParams {
    pub category: Option<String>,
    pub tags: Option<String>,
    pub max_price: Option<u32>,
    pub free_only: Option<bool>,
    pub sort: Option<String>,
    pub page: Option<u32>,
    pub per_page: Option<u32>,
}

/// The query parameters of a text search.
#[derive(Debug)]
pub struct SearchParams {
    pub q: String,
    pub page: Option<u32>,
    pub per_page: Option<u32>,
}

/// A skill package submitted for publication.
#[derive(Debug)]
pub struct SubmitSkillRequest {
    pub name: String,
    pub version: String,
    pub description: String,
    pub license: String,
    pub category: String,
    pub tags: Vec<String>,
    pub permissions_required: Vec<String>,
    pub price_cents: u32,
    /// Base64-encoded WASM bytes.
    pub wasm_base64: String,
    /// Hex-encoded Ed25519 signature.
    pub signature_hex: String,
    /// Hex-encoded signer public key.
    pub signer_pubkey_hex: String,
    pub manifest_hash: String,
    pub author_id: String,
    pub author_name: String,
}

/// A review submitted for a skill.
#[derive(Debug)]
pub struct SubmitReviewRequest {
    pub reviewer_id: String,
    pub rating: u8,
    pub comment: String,
    pub is_community_review: bool,
}

/// A login.
#[derive(Debug)]
pub struct LoginRequest {
    pub username: String,
    pub password: String,
}

/// The answer to a login.
#[derive(Debug)]
pub struct LoginResponse {
    pub token: String,
    pub developer_id: String,
    pub expires_in: u64,
}

/// The largest WASM package accepted, in bytes (50 MiB).
pub const MAX_WASM_SIZE: usize = 52428800;

/// The most results a page may hold.
pub const MAX_PER_PAGE: u32 = 100;

/// The identifier `uuid::Uuid::parse_str` reads in a text, if any.
pub uninterp spec fn uuid_parse(s: Seq<char>) -> Option<u128>;

/// The `k` lowest hexadecimal digits of `x`, lower case, most significant
/// first.
pub open spec fn hex_digits(x: nat, k: nat) -> Seq<char>
    decreases k,
{
    if k == 0 {
        seq![]
    } else {
        hex_digits(x / 16, (k - 1) as nat).push(crate::codec::hex_char((x % 16) as int))
    }
}

/// The text `uuid::Uuid`'s `to_string` writes for an identifier: its 32
/// lower-case hexadecimal digits, most significant first, in groups of 8,
/// 4, 4, 4 and 12 joined by hyphens.
pub open spec fn uuid_text(id: u128) -> Seq<char> {
    let h = hex_digits(id as nat, 32);
    h.subrange(0, 8) + "-"@ + h.subrange(8, 12) + "-"@ + h.subrange(12, 16) + "-"@ + h.subrange(16, 20) + "-"@
        + h.subrange(20, 32)
}

/// Reads an identifier with `uuid::Uuid::parse_str`.
#[verifier::external_body]
fn parse_uuid(s: &str) -> (r: Option<u128>)
    ensures
        r == uuid_parse(s@),
{
    match uuid::Uuid::parse_str(s) {
        Ok(u) => Some(u.as_u128()),
        Err(_) => None,
    }
}

/// Writes an identifier with `uuid::Uuid`'s `to_string` (hyphenated, lower case).
#[verifier::external_body]
fn uuid_string(id: u128) -> (s: String)
    ensures
        s@ == uuid_text(id),
{
    uuid::Uuid::from_u128(id).to_string()
}

/// The order a listing asks for: `newest`, `rating`, `downloads`,
/// `price_low` or `price_high`; anything else, or nothing, is trending.
pub open spec fn sort_named(s: Option<Seq<char>>) -> SkillSortOrder {
    match s {
        Some(t) => if t == "newest"@ {
            SkillSortOrder::Newest
        } else if t == "rating"@ {
            SkillSortOrder::Rating
        } else if t == "downloads"@ {
            SkillSortOrder::Downloads
        } else if t == "price_low"@ {
            SkillSortOrder::PriceLow
        } else if t == "price_high"@ {
            SkillSortOrder::PriceHigh
        } else {
            SkillSortOrder::Trending
        },
        None => SkillSortOrder::Trending,
    }
}

/// The optional text as plain values.
pub open spec fn opt_view(o: Option<String>) -> Option<Seq<char>> {
    match o {
        Some(s) => Some(s@),
        None => None,
    }
}

/// Reads the order a listing asks for.
pub fn parse_sort(sort: &Option<String>) -> (r: SkillSortOrder)
    ensures
        r == sort_named(opt_view(*sort)),
{
    match sort {
        Some(t) => {
            let s = t.as_str();
            if str_eq(s, "newest") {
                SkillSortOrder::Newest
            } else if str_eq(s, "rating") {
                SkillSortOrder::Rating
            } else if str_eq(s, "downloads") {
                SkillSortOrder::Downloads
            } else if str_eq(s, "price_low") {
                SkillSortOrder::PriceLow
            } else if str_eq(s, "price_high") {
                SkillSortOrder::PriceHigh
            } else {
                SkillSortOrder::Trending
            }
        },
        None => SkillSortOrder::Trending,
    }
}

/// The non-empty pieces of a list.
pub open spec fn non_empty(pieces: Seq<Seq<char>>) -> Seq<Seq<char>> {
    pieces.filter(|p: Seq<char>| p.len() > 0)
}

/// The tags of a listing: the non-empty pieces between commas.
pub open spec fn tags_of(tags: Option<Seq<char>>) -> Seq<Seq<char>> {
    match tags {
        Some(t) => non_empty(split_on(t, ',')),
        None => Seq::empty(),
    }
}

/// Reads the tags of a listing.
pub fn split_tags(tags: &Option<String>) -> (r: Vec<String>)
    ensures
        string_views(r@) == tags_of(opt_view(*tags)),
{
    let mut r: Vec<String> = Vec::new();
    match tags {
        None => {
            assert(string_views(r@) =~= Seq::<Seq<char>>::empty());
            r
        },
        Some(t) => {
            let pieces = split_chars(t.as_str(), ',');
            let ghost ps = pieces@.map_values(|p: Vec<char>| p@);
            let mut i: usize = 0;
            while i < pieces.len()
                invariant
                    ps == split_on(t@, ','),
                    ps == pieces@.map_values(|p: Vec<char>| p@),
                    i <= pieces@.len(),
                    string_views(r@) == non_empty(ps.take(i as int)),
                decreases pieces@.len() - i,
            {
                assert(ps.take(i + 1).drop_last() =~= ps.take(i as int));
                assert(ps.take(i + 1).last() == pieces@[i as int]@);
                reveal(Seq::filter);
                if pieces[i].len() > 0 {
                    let piece = string_from_chars(pieces[i].as_slice());
                    let ghost before = r@;
                    r.push(piece);
                    assert(string_views(r@) =~= string_views(before).push(piece@));
                } else {
                }
                i += 1;
            }
            assert(ps.take(pieces@.len() as int) =~= ps);
            r
        },
    }
}

/// The search a listing asks for: its category (which must be a known one),
/// its tags, price limit and free-only flag, its order, page 1 unless
/// another is given, and 20 results per page unless another number is given,
/// at most 100.
pub fn list_skills_query(params: &ListSkillsParams) -> (r: Result<SkillSearchQuery, MarketplaceError>)
    ensures
        match params.category {
            Some(c) if category_named(c@) is None => (r matches Err(MarketplaceError::InvalidCategory(m)) && m@ == c@),
            _ => (r matches Ok(q) && q.query is None && q.category == match params.category {
                Some(c) => category_named(c@),
                None => None,
            } && string_views(q.tags@) == tags_of(opt_view(params.tags)) && q.max_price_cents == params.max_price
                && q.free_only == match params.free_only {
                Some(b) => b,
                None => false,
            } && q.sort == sort_named(opt_view(params.sort)) && q.page == match params.page {
                Some(p) => p,
                None => 1u32,
            } && q.per_page == ({
                let n = match params.per_page {
                    Some(p) => p,
                    None => 20u32,
                };
                if n < MAX_PER_PAGE { n } else { MAX_PER_PAGE }
            })),
        },
{
    let category = match &params.category {
        Some(c) => match SkillCategory::from_str(c.as_str()) {
            Ok(cat) => Some(cat),
            Err(e) => return Err(e),
        },
        None => None,
    };
    let tags = split_tags(&params.tags);
    let sort = parse_sort(&params.sort);
    let per_page: u32 = match params.per_page {
        Some(p) => p,
        None => 20,
    };
    Ok(SkillSearchQuery {
        query: None,
        category,
        tags,
        max_price_cents: params.max_price,
        free_only: match params.free_only {
            Some(b) => b,
            None => false,
        },
        sort,
        page: match params.page {
            Some(p) => p,
            None => 1,
        },
        per_page: if per_page < MAX_PER_PAGE { per_page } else { MAX_PER_PAGE },
    })
}

/// The search a text search asks for: the text, page 1 unless another is
/// given, 20 results per page unless another number is given (at most
/// 100), and otherwise the defaults.
pub fn search_query(params: &SearchParams) -> (q: SkillSearchQuery)
    ensures
        (q.query matches Some(t) && t@ == params.q@),
        q.category is None,
        q.tags@.len() == 0,
        q.max_price_cents is None,
        !q.free_only,
        q.sort == SkillSortOrder::Trending,
        q.page == match params.page {
            Some(p) => p,
            None => 1u32,
        },
        q.per_page == ({
            let n = match params.per_page {
                Some(p) => p,
                None => 20u32,
            };
            if n < MAX_PER_PAGE { n } else { MAX_PER_PAGE }
        }),
{
    let per_page: u32 = match params.per_page {
        Some(p) => p,
        None => 20,
    };
    SkillSearchQuery {
        query: Some(String::from_str(params.q.as_str())),
        category: None,
        tags: Vec::new(),
        max_price_cents: None,
        free_only: false,
        sort: SkillSortOrder::Trending,
        page: match params.page {
            Some(p) => p,
            None => 1,
        },
        per_page: if per_page < MAX_PER_PAGE { per_page } else { MAX_PER_PAGE },
    }
}

/// A submission that passed its checks: the decoded package, signature and
/// key, its category, and its author.
#[derive(Debug)]
pub struct CheckedSubmission {
    pub wasm: Vec<u8>,
    pub signature: Vec<u8>,
    pub signer_pubkey: Vec<u8>,
    pub category: SkillCategory,
    pub author_id: u128,
}

/// Checks a submitted skill, in turn: the package must be Base64, the
/// signature and the key hexadecimal, the package at most 50 MiB, the
/// category a known one, and the author's identifier a UUID.
pub fn check_submission(req: &SubmitSkillRequest) -> (r: Result<CheckedSubmission, MarketplaceError>)
    ensures
        ({
            let w = base64_outcome(req.wasm_base64@);
            let s = hex_outcome(req.signature_hex@);
            let k = hex_outcome(req.signer_pubkey_hex@);
            if w is Err {
                (r matches Err(MarketplaceError::InvalidWasm(m)) && m@ == "base64 decode failed: "@ + w->Err_0)
            } else if s is Err {
                (r matches Err(MarketplaceError::SignatureError(m)) && m@ == "signature decode: "@ + s->Err_0)
            } else if k is Err {
                (r matches Err(MarketplaceError::SignatureError(m)) && m@ == "pubkey decode: "@ + k->Err_0)
            } else if w->Ok_0.len() > MAX_WASM_SIZE {
                (r matches Err(MarketplaceError::PackageTooLarge { size, limit }) && size == w->Ok_0.len()
                    && limit == MAX_WASM_SIZE)
            } else if category_named(req.category@) is None {
                (r matches Err(MarketplaceError::InvalidCategory(m)) && m@ == req.category@)
            } else if uuid_parse(req.author_id@) is None {
                (r matches Err(MarketplaceError::InvalidCategory(m)) && m@ == "invalid author_id UUID"@)
            } else {
                (r matches Ok(c) && c.wasm@ == w->Ok_0 && c.signature@ == s->Ok_0 && c.signer_pubkey@ == k->Ok_0
                    && c.category == category_named(req.category@)->Some_0 && c.author_id == uuid_parse(
                    req.author_id@,
                )->Some_0)
            }
        }),
{
    let wasm = match base64_decode(req.wasm_base64.as_str()) {
        Ok(v) => v,
        Err(e) => return Err(MarketplaceError::InvalidWasm(concat2("base64 decode failed: ", e.as_str()))),
    };
    let signature = match hex_decode(req.signature_hex.as_str()) {
        Ok(v) => v,
        Err(e) => return Err(MarketplaceError::SignatureError(concat2("signature decode: ", e.as_str()))),
    };
    let signer_pubkey = match hex_decode(req.signer_pubkey_hex.as_str()) {
        Ok(v) => v,
        Err(e) => return Err(MarketplaceError::SignatureError(concat2("pubkey decode: ", e.as_str()))),
    };
    if wasm.len() > MAX_WASM_SIZE {
        return Err(MarketplaceError::PackageTooLarge { size: wasm.len(), limit: MAX_WASM_SIZE });
    }
    let category = match SkillCategory::from_str(req.category.as_str()) {
        Ok(c) => c,
        Err(e) => return Err(e),
    };
    let author_id = match parse_uuid(req.author_id.as_str()) {
        Some(a) => a,
        None => return Err(MarketplaceError::InvalidCategory(String::from_str("invalid author_id UUID"))),
    };
    Ok(CheckedSubmission { wasm, signature, signer_pubkey, category, author_id })
}

/// The review status a submitted skill starts with: passed or failed by the
/// automatic scan.
pub fn initial_review_status(scan_passed: bool) -> (s: ReviewStatus)
    ensures
        scan_passed ==> s is AutoScanPassed,
        !scan_passed ==> s is AutoScanFailed,
{
    if scan_passed {
        ReviewStatus::AutoScanPassed
    } else {
        ReviewStatus::AutoScanFailed
    }
}

/// Checks a review: its rating must lie between 1 and 5, and its
/// author must be named by a UUID, which comes back.
pub fn check_review(req: &SubmitReviewRequest) -> (r: Result<u128, MarketplaceError>)
    ensures
        !(1 <= req.rating <= 5) ==> r matches Err(MarketplaceError::InvalidRating),
        1 <= req.rating <= 5 && uuid_parse(req.reviewer_id@) is None ==> (r matches Err(
            MarketplaceError::InvalidCategory(m),
        ) && m@ == "invalid reviewer_id"@),
        1 <= req.rating <= 5 && uuid_parse(req.reviewer_id@) is Some ==> (r matches Ok(id) && id == uuid_parse(
            req.reviewer_id@,
        )->Some_0),
{
    if !(1 <= req.rating && req.rating <= 5) {
        return Err(MarketplaceError::InvalidRating);
    }
    match parse_uuid(req.reviewer_id.as_str()) {
        Some(id) => Ok(id),
        None => Err(MarketplaceError::InvalidCategory(String::from_str("invalid reviewer_id"))),
    }
}

/// Whether a skill may be downloaded: only once it is approved.
pub fn check_downloadable(status: &ReviewStatus) -> (r: Result<(), MarketplaceError>)
    ensures
        (*status is Approved) ==> r is Ok,
        !(*status is Approved) ==> (r matches Err(MarketplaceError::PermissionDenied(m)) && m@
            == "Skill is not yet approved for download"@),
{
    match status {
        ReviewStatus::Approved => Ok(()),
        _ => Err(MarketplaceError::PermissionDenied(String::from_str("Skill is not yet approved for download"))),
    }
}

/// How long a login token lasts, in seconds (a day).
pub const TOKEN_LIFETIME_SECS: u64 = 86400;

/// Answers a login: a placeholder token naming the user, a fresh random
/// developer identifier, and a lifetime of a day.
pub fn login(req: &LoginRequest) -> (r: LoginResponse)
    ensures
        r.token@ == "placeholder-jwt-for-"@ + req.username@,
        exists|id: u128| r.developer_id@ == uuid_text(id),
        r.expires_in == TOKEN_LIFETIME_SECS,
{
    let id = new_uuid();
    LoginResponse {
        token: concat2("placeholder-jwt-for-", req.username.as_str()),
        developer_id: uuid_string(id),
        expires_in: TOKEN_LIFETIME_SECS,
    }
}


/// The HTTP status a refused marketplace request is answered with: 404 for
/// what is not found, 401 without authentication, 403 without permission,
/// 400 for bad input, 413 for a package too large, else 500.
pub open spec fn status_for(e: MarketplaceError) -> u16 {
    match e {
        MarketplaceError::SkillNotFound(_) | MarketplaceError::DeveloperNotFound(_) | MarketplaceError::ReviewNotFound(
            _,
        ) => 404,
        MarketplaceError::AuthenticationRequired => 401,
        MarketplaceError::PermissionDenied(_) => 403,
        MarketplaceError::InvalidCategory(_) | MarketplaceError::InvalidRating | MarketplaceError::InvalidWasm(_) => 400,
        MarketplaceError::PackageTooLarge { .. } => 413,
        _ => 500,
    }
}

/// The text of a marketplace error.
pub open spec fn error_text(e: MarketplaceError) -> Seq<char> {
    match e {
        MarketplaceError::SkillNotFound(id) => "Skill not found: "@ + uuid_text(id),
        MarketplaceError::DeveloperNotFound(id) => "Developer not found: "@ + uuid_text(id),
        MarketplaceError::ReviewNotFound(id) => "Review not found: "@ + uuid_text(id),
        MarketplaceError::InvalidCategory(c) => "Invalid category: "@ + c@,
        MarketplaceError::InvalidRating => "Invalid rating: must be between 1 and 5"@,
        MarketplaceError::AuthenticationRequired => "Authentication required"@,
        MarketplaceError::PermissionDenied(m) => "Permission denied: "@ + m@,
        MarketplaceError::SignatureError(m) => "Signature verification failed: "@ + m@,
        MarketplaceError::ScanError(m) => "Scan failed: "@ + m@,
        MarketplaceError::PackageTooLarge { size, limit } => "Package too large: "@ + decimal(size as nat)
            + " bytes exceeds limit of "@ + decimal(limit as nat) + " bytes"@,
        MarketplaceError::InvalidWasm(m) => "Invalid WASM: "@ + m@,
        MarketplaceError::Database(m) => "Database error: "@ + m@,
        MarketplaceError::Serialization(m) => "Serialization error: "@ + m@,
        MarketplaceError::HttpClient(m) => "HTTP client error: "@ + m@,
        MarketplaceError::Internal(m) => "Internal error: "@ + m@,
    }
}

/// Writes the text of a marketplace error.
pub fn error_message(e: &MarketplaceError) -> (r: String)
    ensures
        r@ == error_text(*e),
{
    let (head, tail): (&str, String) = match e {
        MarketplaceError::SkillNotFound(id) => ("Skill not found: ", uuid_string(*id)),
        MarketplaceError::DeveloperNotFound(id) => ("Developer not found: ", uuid_string(*id)),
        MarketplaceError::ReviewNotFound(id) => ("Review not found: ", uuid_string(*id)),
        MarketplaceError::InvalidCategory(c) => ("Invalid category: ", c.clone()),
        MarketplaceError::InvalidRating => ("Invalid rating: must be between 1 and 5", String::new()),
        MarketplaceError::AuthenticationRequired => ("Authentication required", String::new()),
        MarketplaceError::PermissionDenied(m) => ("Permission denied: ", m.clone()),
        MarketplaceError::SignatureError(m) => ("Signature verification failed: ", m.clone()),
        MarketplaceError::ScanError(m) => ("Scan failed: ", m.clone()),
        MarketplaceError::PackageTooLarge { size, limit } => {
            let mut t = u64_to_decimal(*size as u64);
            t.append(" bytes exceeds limit of ");
            let l = u64_to_decimal(*limit as u64);
            t.append(l.as_str());
            t.append(" bytes");
            ("Package too large: ", t)
        },
        MarketplaceError::InvalidWasm(m) => ("Invalid WASM: ", m.clone()),
        MarketplaceError::Database(m) => ("Database error: ", m.clone()),
        MarketplaceError::Serialization(m) => ("Serialization error: ", m.clone()),
        MarketplaceError::HttpClient(m) => ("HTTP client error: ", m.clone()),
        MarketplaceError::Internal(m) => ("Internal error: ", m.clone()),
    };
    let r = concat2(head, tail.as_str());
    proof {
        match e {
            MarketplaceError::PackageTooLarge { size, limit } => {},
            _ => {},
        }
        assert(r@ =~= error_text(*e));
    }
    r
}

/// How a refused request is answered: its status and message; errors of
/// the server's own services are answered with a general message.
pub fn error_response(e: &MarketplaceError) -> (r: (u16, String))
    ensures
        r.0 == status_for(*e),
        r.1@ == if status_for(*e) == 500 {
            "Internal server error"@
        } else {
            error_text(*e)
        },
{
    let status: u16 = match e {
        MarketplaceError::SkillNotFound(_) | MarketplaceError::DeveloperNotFound(_) | MarketplaceError::ReviewNotFound(
            _,
        ) => 404,
        MarketplaceError::AuthenticationRequired => 401,
        MarketplaceError::PermissionDenied(_) => 403,
        MarketplaceError::InvalidCategory(_) | MarketplaceError::InvalidRating | MarketplaceError::InvalidWasm(_) => 400,
        MarketplaceError::PackageTooLarge { .. } => 413,
        _ => 500,
    };
    if status == 500 {
        (status, String::from_str("Internal server error"))
    } else {
        (status, error_message(e))
    }
}

} // verus!
