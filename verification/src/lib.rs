//! Live, dynamically typed queries over an entity/component store.
//!
//! Clients subscribe to queries by the short names of component types. A
//! [`registry::ComponentIdRegistry`] resolves the names, [`QueryPlan`] is what
//! a request compiles to, [`EcsSubApi`] keeps the live subscriptions and turns
//! the rows that the store yields for a plan into a [`QuerySubResp`], and
//! [`FanOut`] drives the delivery of one tick's responses to the connected
//! clients.

pub mod api;
pub mod error;
pub mod fan_out;
pub mod protocol;
pub mod query;
pub mod registry;
pub mod response;

pub use api::EcsSubApi;
pub use error::QueryError;
pub use fan_out::{
    classify, lemma_fan_out_stays_ordered, lemma_finished_tick_wrote_all,
    lemma_outcome_is_filed_under_its_write, lemma_survivors_are_the_unmarked,
    lemma_tick_serves_all_and_prunes_the_closed, lemma_well_formed_is_ordered, send_outcome,
    FanOut, FanOutView, SendOutcome, WriteFault,
};
pub use protocol::{ClientMsg, ServerMsg};
pub use query::{FetchKind, FilterKind, QueryId, QueryPlan, QuerySubReq, ShortNameFilter};
pub use registry::ShortName;
pub use response::{JsonString, QuerySubResp, RawRow};
