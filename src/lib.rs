//! Control-plane core of a multiplexing proxy: the authentication frame
//! codec and the weighted, health-aware upstream selector.

mod codec;
mod token;
mod upstream;

pub use codec::{
    read_short_string, write_short_string, ProtError, ProtFrameHeader, ProxyResult, HEADER_LEN,
    KIND_TOKEN, SHORT_STRING_MAX,
};
pub use token::{
    accepts, fits_short_strings, lemma_token_length, lemma_token_round_trip, spec_parse_token,
    token_body, token_frame, token_header, ProtToken,
};
pub use upstream::{
    default_fall_times, default_rise_times, default_weight, fail_timeout, healthy_weight,
    lemma_failover, lemma_pick_eligible, lemma_pick_reaches, lemma_pick_some,
    lemma_selection_degenerate, no_skip, pick_from, selection_outcome, spec_pick, sum_from, total_weight,
    weights, SingleStreamConfig, SockAddr, UpstreamConfig,
};
