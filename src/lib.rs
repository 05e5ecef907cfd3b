//! Discovery of the remote peers of a monitored process, and the view model
//! of the dashboard that shows them.
//!
//! `extract` reads endpoints out of a socket listing, `order` puts them in
//! display order, `poller` decides what each poll reports, and `view` holds
//! the state that the dashboard renders.

mod extract;
mod order;
mod poller;
mod text;
mod view;

pub use extract::{
    acceptable, arrow_at, candidate, endpoint_set, endpoint_shape, endpoints_before, ends_token,
    extract_endpoints, extracted, first_occurrences, lemma_endpoint_has_no_space,
    lemma_endpoint_shape, line_start, reported_at, reports_before, token_end, unbracket,
};
pub use order::{
    endpoint_le, endpoint_le_exec, in_display_order, ip_key_of, key_lt, lemma_endpoint_total,
    sort_endpoints, text_le,
};
pub use poller::{
    clock_shape, entry_text, first_pid, first_pid_text, fresh_endpoints, history_entry,
    lemma_entry_token, line_end, listing_error, lookup_error, pid_or_wait, skip_space, stamped,
    trim_back, Poller,
};
pub use text::{ascii_space_char, is_ascii_space, is_space, space_char};
pub use view::{
    alert_status, appended, is_alert_status, last_token, last_token_of, lemma_history_length,
    lemma_next_then_previous, lemma_toggle_involution, next_index, occurs_in, other_focus,
    prev_index, seen_between, seen_set, token_start, total_count, trimmed_end, window_start, App,
    BackgroundEvent, Focus, Key, PAGE_ROWS, SEEN_WINDOW,
};
