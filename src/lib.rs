//! A store of recommendations: one payload per submitter, the submitters kept
//! in the order in which they first submitted, paging over that order, and the
//! settlement of the deposit that pays for the storage a submission takes.

mod deposit;
mod laws;
mod pagination;
mod store;
mod user_info;

pub use deposit::{settle_deposit, settlement, storage_cost, DepositError};
pub use laws::{
    after_submissions, lemma_limit_clamp, lemma_page_boundaries, lemma_pages_partition, lemma_refund_exact,
    lemma_submission_order, lemma_upsert_dedup, pages_listing,
};
pub use pagination::{decimal_value, is_decimal, is_digit, page_bounds, page_spec, parse_start, start_spec, PageError};
pub use store::{entry_map, index_after, listing, page_view, pairs_view, payloads_after, Contract};
pub use user_info::UserInfo;
