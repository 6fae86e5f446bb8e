//! Marketplace records: skill categories, the review workflow's states and
//! their stored form, ratings, fees and paging.

use vstd::prelude::*;
use crate::text::has_prefix;
use crate::text::str_eq;
use crate::text::str_starts_with;

verus! {

/// Why a marketplace request was refused. Failures of the outside services
/// (database, serialization, HTTP) are carried as messages; identifiers are
/// UUIDs as numbers.
#[derive(Debug)]
pub enum MarketplaceError {
    SkillNotFound(u128),
    DeveloperNotFound(u128),
    ReviewNotFound(u128),
    InvalidCategory(String),
    InvalidRating,
    AuthenticationRequired,
    PermissionDenied(String),
    SignatureError(String),
    ScanError(String),
    PackageTooLarge { size: usize, limit: usize },
    InvalidWasm(String),
    Database(String),
    Serialization(String),
    HttpClient(String),
    Internal(String),
}

/// The kind of work a skill does.
#[derive(Clone, Copy, Debug, PartialEq, Eq, Structural, Hash)]
pub enum SkillCategory {
    Productivity,
    Development,
    Security,
    DataAnalysis,
    Communication,
    Automation,
    Integration,
    Utilities,
}

/// The name of a category.
pub open spec fn category_name(c: SkillCategory) -> Seq<char> {
    match c {
        SkillCategory::Productivity => "productivity"@,
        SkillCategory::Development => "development"@,
        SkillCategory::Security => "security"@,
        SkillCategory::DataAnalysis => "data_analysis"@,
        SkillCategory::Communication => "communication"@,
        SkillCategory::Automation => "automation"@,
        SkillCategory::Integration => "integration"@,
        SkillCategory::Utilities => "utilities"@,
    }
}

/// The category with the name, if any.
pub open spec fn category_named(s: Seq<char>) -> Option<SkillCategory> {
    if s == "productivity"@ {
        Some(SkillCategory::Productivity)
    } else if s == "development"@ {
        Some(SkillCategory::Development)
    } else if s == "security"@ {
        Some(SkillCategory::Security)
    } else if s == "data_analysis"@ {
        Some(SkillCategory::DataAnalysis)
    } else if s == "communication"@ {
        Some(SkillCategory::Communication)
    } else if s == "automation"@ {
        Some(SkillCategory::Automation)
    } else if s == "integration"@ {
        Some(SkillCategory::Integration)
    } else if s == "utilities"@ {
        Some(SkillCategory::Utilities)
    } else {
        None
    }
}

impl SkillCategory {
    /// The category's name.
    pub fn to_string(&self) -> (s: String)
        ensures
            s@ == category_name(*self),
    {
        match self {
            SkillCategory::Productivity => String::from_str("productivity"),
            SkillCategory::Development => String::from_str("development"),
            SkillCategory::Security => String::from_str("security"),
            SkillCategory::DataAnalysis => String::from_str("data_analysis"),
            SkillCategory::Communication => String::from_str("communication"),
            SkillCategory::Automation => String::from_str("automation"),
            SkillCategory::Integration => String::from_str("integration"),
            SkillCategory::Utilities => String::from_str("utilities"),
        }
    }

    /// The category with the name; any other text is `InvalidCategory`.
    pub fn from_str(s: &str) -> (r: Result<SkillCategory, MarketplaceError>)
        ensures
            match category_named(s@) {
                Some(c) => r matches Ok(d) && d == c,
                None => r matches Err(MarketplaceError::InvalidCategory(m)) && m@ == s@,
            },
    {
        if str_eq(s, "productivity") {
            Ok(SkillCategory::Productivity)
        } else if str_eq(s, "development") {
            Ok(SkillCategory::Development)
        } else if str_eq(s, "security") {
            Ok(SkillCategory::Security)
        } else if str_eq(s, "data_analysis") {
            Ok(SkillCategory::DataAnalysis)
        } else if str_eq(s, "communication") {
            Ok(SkillCategory::Communication)
        } else if str_eq(s, "automation") {
            Ok(SkillCategory::Automation)
        } else if str_eq(s, "integration") {
            Ok(SkillCategory::Integration)
        } else if str_eq(s, "utilities") {
            Ok(SkillCategory::Utilities)
        } else {
            Err(MarketplaceError::InvalidCategory(String::from_str(s)))
        }
    }
}

/// Reading back a category's name gives the category.
pub proof fn category_name_roundtrip(c: SkillCategory)
    ensures
        category_named(category_name(c)) == Some(c),
{
    reveal_strlit("productivity");
    reveal_strlit("development");
    reveal_strlit("security");
    reveal_strlit("data_analysis");
    reveal_strlit("communication");
    reveal_strlit("automation");
    reveal_strlit("integration");
    reveal_strlit("utilities");
    assert("productivity"@.len() == 12);
    assert("development"@.len() == 11);
    assert("security"@.len() == 8);
    assert("data_analysis"@.len() == 13);
    assert("communication"@.len() == 13);
    assert("automation"@.len() == 10);
    assert("integration"@.len() == 11);
    assert("utilities"@.len() == 9);
    assert("data_analysis"@[0] != "communication"@[0]);
    assert("development"@[0] != "integration"@[0]);
}

/// Where a submitted skill stands in review.
#[derive(Debug)]
pub enum ReviewStatus {
    Pending,
    AutoScanPassed,
    AutoScanFailed,
    CommunityReview,
    CommunityApproved,
    StaffReview,
    Approved,
    Rejected { reason: String },
}

/// A review state as plain values.
pub enum ReviewStatusView {
    Pending,
    AutoScanPassed,
    AutoScanFailed,
    CommunityReview,
    CommunityApproved,
    StaffReview,
    Approved,
    Rejected { reason: Seq<char> },
}

impl View for ReviewStatus {
    type V = ReviewStatusView;

    open spec fn view(&self) -> ReviewStatusView {
        match self {
            ReviewStatus::Pending => ReviewStatusView::Pending,
            ReviewStatus::AutoScanPassed => ReviewStatusView::AutoScanPassed,
            ReviewStatus::AutoScanFailed => ReviewStatusView::AutoScanFailed,
            ReviewStatus::CommunityReview => ReviewStatusView::CommunityReview,
            ReviewStatus::CommunityApproved => ReviewStatusView::CommunityApproved,
            ReviewStatus::StaffReview => ReviewStatusView::StaffReview,
            ReviewStatus::Approved => ReviewStatusView::Approved,
            ReviewStatus::Rejected { reason } => ReviewStatusView::Rejected { reason: reason@ },
        }
    }
}

/// The stored form of a review state; a rejection carries its reason after `rejected:`.
pub open spec fn review_db_text(s: ReviewStatusView) -> Seq<char> {
    match s {
        ReviewStatusView::Pending => "pending"@,
        ReviewStatusView::AutoScanPassed => "auto_scan_passed"@,
        ReviewStatusView::AutoScanFailed => "auto_scan_failed"@,
        ReviewStatusView::CommunityReview => "community_review"@,
        ReviewStatusView::CommunityApproved => "community_approved"@,
        ReviewStatusView::StaffReview => "staff_review"@,
        ReviewStatusView::Approved => "approved"@,
        ReviewStatusView::Rejected { reason } => "rejected:"@ + reason,
    }
}

/// The review state read from its stored form; unknown text reads as pending.
pub open spec fn review_from_db_text(s: Seq<char>) -> ReviewStatusView {
    if has_prefix(s, "rejected:"@) {
        ReviewStatusView::Rejected { reason: s.subrange(9, s.len() as int) }
    } else if s == "pending"@ {
        ReviewStatusView::Pending
    } else if s == "auto_scan_passed"@ {
        ReviewStatusView::AutoScanPassed
    } else if s == "auto_scan_failed"@ {
        ReviewStatusView::AutoScanFailed
    } else if s == "community_review"@ {
        ReviewStatusView::CommunityReview
    } else if s == "community_approved"@ {
        ReviewStatusView::CommunityApproved
    } else if s == "staff_review"@ {
        ReviewStatusView::StaffReview
    } else if s == "approved"@ {
        ReviewStatusView::Approved
    } else {
        ReviewStatusView::Pending
    }
}

impl ReviewStatus {
    /// The stored form of the state.
    pub fn as_db_str(&self) -> (s: String)
        ensures
            s@ == review_db_text(self@),
    {
        match self {
            ReviewStatus::Pending => String::from_str("pending"),
            ReviewStatus::AutoScanPassed => String::from_str("auto_scan_passed"),
            ReviewStatus::AutoScanFailed => String::from_str("auto_scan_failed"),
            ReviewStatus::CommunityReview => String::from_str("community_review"),
            ReviewStatus::CommunityApproved => String::from_str("community_approved"),
            ReviewStatus::StaffReview => String::from_str("staff_review"),
            ReviewStatus::Approved => String::from_str("approved"),
            ReviewStatus::Rejected { reason } => {
                let mut s = String::from_str("rejected:");
                s.append(reason.as_str());
                s
            },
        }
    }

    /// The state read from its stored form; unknown text reads as pending.
    pub fn from_db_str(s: &str) -> (r: ReviewStatus)
        ensures
            r@ == review_from_db_text(s@),
    {
        if str_starts_with(s, "rejected:") {
            proof {
                reveal_strlit("rejected:");
            }
            let n = s.unicode_len();
            let reason = s.substring_char(9, n);
            return ReviewStatus::Rejected { reason: String::from_str(reason) };
        }
        if str_eq(s, "pending") {
            ReviewStatus::Pending
        } else if str_eq(s, "auto_scan_passed") {
            ReviewStatus::AutoScanPassed
        } else if str_eq(s, "auto_scan_failed") {
            ReviewStatus::AutoScanFailed
        } else if str_eq(s, "community_review") {
            ReviewStatus::CommunityReview
        } else if str_eq(s, "community_approved") {
            ReviewStatus::CommunityApproved
        } else if str_eq(s, "staff_review") {
            ReviewStatus::StaffReview
        } else if str_eq(s, "approved") {
            ReviewStatus::Approved
        } else {
            ReviewStatus::Pending
        }
    }
}

/// Storing a review state and reading it back gives the same state.
pub proof fn review_status_roundtrip(s: ReviewStatusView)
    ensures
        review_from_db_text(review_db_text(s)) == s,
{
    reveal_strlit("rejected:");
    reveal_strlit("pending");
    reveal_strlit("auto_scan_passed");
    reveal_strlit("auto_scan_failed");
    reveal_strlit("community_review");
    reveal_strlit("community_approved");
    reveal_strlit("staff_review");
    reveal_strlit("approved");
    let t = review_db_text(s);
    match s {
        ReviewStatusView::Rejected { reason } => {
            assert(t.subrange(0, 9) =~= "rejected:"@);
            assert(t.subrange(9, t.len() as int) =~= reason);
        },
        _ => {
            assert(!has_prefix(t, "rejected:"@)) by {
                if t.len() >= 9 {
                    assert(t[0] != "rejected:"@[0] || t[1] != "rejected:"@[1] || t[2] != "rejected:"@[2]
                        || t.subrange(0, 9)[8] != "rejected:"@[8]);
                    assert(t.subrange(0, 9)[0] == t[0]);
                    assert(t.subrange(0, 9)[1] == t[1]);
                    assert(t.subrange(0, 9)[2] == t[2]);
                }
            }
            assert("auto_scan_passed"@.len() == 16 && "auto_scan_failed"@.len() == 16);
            assert("auto_scan_passed"@[10] != "auto_scan_failed"@[10]);
            assert("community_review"@.len() == 16 && "community_approved"@.len() == 18);
            assert("staff_review"@.len() == 12 && "approved"@.len() == 8 && "pending"@.len() == 7);
            assert("auto_scan_passed"@[0] != "community_review"@[0]);
        },
    }
}


/// A review of a skill. Identifiers are UUIDs as numbers; `created_at` is
/// in milliseconds since the Unix epoch.
#[derive(Debug)]
pub struct Review {
    pub id: u128,
    pub skill_id: u128,
    pub reviewer_id: u128,
    pub rating: u8,
    pub comment: String,
    pub created_at: i64,
    pub is_community_review: bool,
}

impl Review {
    /// Ratings go from one to five stars.
    pub fn validate_rating(&self) -> (b: bool)
        ensures
            b == (1 <= self.rating <= 5),
    {
        1 <= self.rating && self.rating <= 5
    }
}

/// The marketplace's commercial settings. The platform fee is in basis
/// points (1500 is 15%).
#[derive(Debug)]
pub struct MarketplaceConfig {
    pub platform_fee_bps: u32,
    pub min_payout_cents: u32,
    pub stripe_api_key_encrypted: Option<String>,
    pub cdn_base_url: String,
}

/// The platform's fee on a price: the price times the fee in basis points
/// over 10,000, rounded down, at most `u32::MAX`.
pub open spec fn platform_fee(price_cents: u32, fee_bps: u32) -> int {
    let f = price_cents as int * fee_bps as int / 10000;
    if f > u32::MAX {
        u32::MAX as int
    } else {
        f
    }
}

impl Default for MarketplaceConfig {
    fn default() -> (c: MarketplaceConfig)
        ensures
            c.platform_fee_bps == 1500,
            c.min_payout_cents == 1000,
            c.stripe_api_key_encrypted is None,
            c.cdn_base_url@ == "https://cdn.openzax.dev"@,
    {
        MarketplaceConfig {
            platform_fee_bps: 1500,
            min_payout_cents: 1000,
            stripe_api_key_encrypted: None,
            cdn_base_url: String::from_str("https://cdn.openzax.dev"),
        }
    }
}

impl MarketplaceConfig {
    /// What the developer is paid of a sale: the price less the platform's fee
    /// (never below zero).
    pub fn developer_payout_cents(&self, price_cents: u32) -> (p: u32)
        ensures
            p == if price_cents >= platform_fee(price_cents, self.platform_fee_bps) {
                price_cents - platform_fee(price_cents, self.platform_fee_bps)
            } else {
                0
            },
    {
        let a = price_cents as u64;
        let b = self.platform_fee_bps as u64;
        assert(a * b <= 0xffff_ffff * 0xffff_ffff) by (nonlinear_arith)
            requires
                a <= 0xffff_ffff,
                b <= 0xffff_ffff,
        ;
        let product: u64 = a * b;
        let f = product / 10000;
        let fee: u32 = if f > 4294967295 { 4294967295u32 } else { f as u32 };
        price_cents.saturating_sub(fee)
    }
}

/// How search results are ordered.
#[derive(Clone, Copy, Debug, PartialEq, Eq, Structural)]
pub enum SkillSortOrder {
    Trending,
    Newest,
    Rating,
    Downloads,
    PriceLow,
    PriceHigh,
}

impl Default for SkillSortOrder {
    fn default() -> (s: SkillSortOrder)
        ensures
            s == SkillSortOrder::Trending,
    {
        SkillSortOrder::Trending
    }
}

/// A search of the skill catalogue.
#[derive(Debug)]
pub struct SkillSearchQuery {
    pub query: Option<String>,
    pub category: Option<SkillCategory>,
    pub tags: Vec<String>,
    pub max_price_cents: Option<u32>,
    pub free_only: bool,
    pub sort: SkillSortOrder,
    pub page: u32,
    pub per_page: u32,
}

impl Default for SkillSearchQuery {
    fn default() -> (q: SkillSearchQuery)
        ensures
            q.query is None,
            q.category is None,
            q.tags@.len() == 0,
            q.max_price_cents is None,
            !q.free_only,
            q.sort == SkillSortOrder::Trending,
            q.page == 1,
            q.per_page == 20,
    {
        SkillSearchQuery {
            query: None,
            category: None,
            tags: Vec::new(),
            max_price_cents: None,
            free_only: false,
            sort: SkillSortOrder::Trending,
            page: 1,
            per_page: 20,
        }
    }
}

/// The number of pages of `per_page` items that `total` items fill, rounded
/// up and at most `u32::MAX`; with no items per page, none when there are no
/// items and `u32::MAX` otherwise.
pub open spec fn page_count(total: u64, per_page: u32) -> int {
    if per_page == 0 {
        if total == 0 {
            0
        } else {
            u32::MAX as int
        }
    } else {
        let p = (total as int + per_page as int - 1) / per_page as int;
        if p > u32::MAX {
            u32::MAX as int
        } else {
            p
        }
    }
}

/// One page of results and where it stands among all of them.
#[derive(Debug)]
pub struct PaginatedResponse<T> {
    pub items: Vec<T>,
    pub total: u64,
    pub page: u32,
    pub per_page: u32,
    pub total_pages: u32,
}

impl<T> PaginatedResponse<T> {
    /// A page of results, with the number of pages computed.
    pub fn new(items: Vec<T>, total: u64, page: u32, per_page: u32) -> (r: PaginatedResponse<T>)
        ensures
            r.items@ == items@,
            r.total == total,
            r.page == page,
            r.per_page == per_page,
            r.total_pages == page_count(total, per_page),
    {
        let total_pages: u32 = if per_page == 0 {
            if total == 0 {
                0
            } else {
                4294967295u32
            }
        } else {
            let q = total / per_page as u64;
            if total % per_page as u64 != 0 {
                assert(q < 0xffff_ffff_ffff_ffff) by (nonlinear_arith)
                    requires
                        per_page >= 1,
                        total % per_page as u64 != 0,
                        q == total / per_page as u64,
                ;
            }
            let p = if total % per_page as u64 == 0 { q } else { q + 1 };
            assert(p == (total as int + per_page as int - 1) / per_page as int) by (nonlinear_arith)
                requires
                    per_page > 0,
                    q == total / per_page as u64,
                    p == if total % per_page as u64 == 0 { q } else { (q + 1) as u64 },
            ;
            if p > 4294967295 {
                4294967295u32
            } else {
                p as u32
            }
        };
        PaginatedResponse { items, total, page, per_page, total_pages }
    }
}


/// How many of the reviews give a number of stars.
pub open spec fn rating_count(rs: Seq<Review>, stars: int) -> nat
    decreases rs.len(),
{
    if rs.len() == 0 {
        0
    } else {
        rating_count(rs.drop_last(), stars) + if rs.last().rating == stars {
            1nat
        } else {
            0nat
        }
    }
}

/// The stars of the reviews added up.
pub open spec fn star_total(rs: Seq<Review>) -> nat
    decreases rs.len(),
{
    if rs.len() == 0 {
        0
    } else {
        star_total(rs.drop_last()) + rs.last().rating as nat
    }
}

/// The ratings of a skill: how many reviews it has, their stars added up
/// (the average is that sum over the count), and for each number of stars
/// from 0 to 255 how many reviews give it.
#[derive(Debug)]
pub struct SkillRating {
    pub skill_id: u128,
    pub total_reviews: u32,
    pub star_sum: u64,
    pub distribution: Vec<u32>,
}

impl SkillRating {
    /// Tallies the reviews of a skill.
    pub fn compute(skill_id: u128, reviews: &[Review]) -> (r: SkillRating)
        requires
            reviews@.len() <= u32::MAX,
        ensures
            r.skill_id == skill_id,
            r.total_reviews == reviews@.len(),
            r.star_sum == star_total(reviews@),
            r.distribution@.len() == 256,
            forall|s: int| 0 <= s < 256 ==> #[trigger] r.distribution@[s] == rating_count(reviews@, s),
    {
        let mut distribution: Vec<u32> = Vec::new();
        let mut k: usize = 0;
        while k < 256
            invariant
                k <= 256,
                distribution@.len() == k,
                forall|s: int| 0 <= s < k ==> #[trigger] distribution@[s] == 0,
            decreases 256 - k,
        {
            distribution.push(0);
            k = k + 1;
        }
        let mut star_sum: u64 = 0;
        let mut i: usize = 0;
        while i < reviews.len()
            invariant
                i <= reviews@.len(),
                reviews@.len() <= u32::MAX,
                distribution@.len() == 256,
                star_sum == star_total(reviews@.take(i as int)),
                star_sum <= 255 * i,
                forall|s: int| 0 <= s < 256 ==> #[trigger] distribution@[s] == rating_count(reviews@.take(i as int), s),
                forall|s: int| 0 <= s < 256 ==> #[trigger] distribution@[s] <= i,
            decreases reviews@.len() - i,
        {
            let rating = reviews[i].rating;
            let ghost prev = reviews@.take(i as int);
            assert(reviews@.take(i + 1).drop_last() =~= prev);
            assert(reviews@.take(i + 1).last() == reviews@[i as int]);
            let idx = rating as usize;
            let c = distribution[idx];
            distribution.set(idx, c + 1);
            star_sum = star_sum + rating as u64;
            i = i + 1;
        }
        assert(reviews@.take(reviews@.len() as int) =~= reviews@);
        SkillRating { skill_id, total_reviews: reviews.len() as u32, star_sum, distribution }
    }
}

} // verus!
