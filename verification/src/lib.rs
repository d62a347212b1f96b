//! An in-process publish-subscribe message bus.
//!
//! Each message pairs one topic with one content value. Clients are
//! registered as subscribers while the network is being assembled, each with
//! the list of topics it wants to receive. A subscriber only ever receives
//! messages whose topic it asked for; the filtering happens entirely on the
//! publishing side. Consuming the [`Builder`] freezes the topology: no
//! subscriber can be added once the network is open.
//!
//! The following features are deliberately absent:
//!
//!  - Adding new subscribers after initial network setup
//!  - Removing subscribers from the network at any time
//!  - Detecting or handling the disappearance of parts of the network

mod bus;
mod laws;
mod model;

pub use bus::Builder;
pub use bus::Publisher;
pub use bus::Subscriber;
pub use model::Msg;
pub use model::deliveries;
pub use model::drained;
pub use model::list_of;
pub use model::msg_view;
pub use model::msg_views;
pub use model::occurrences;
pub use model::repeated;
pub use model::route;
pub use model::topic_views;
pub use laws::lemma_drain_semantics;
pub use laws::lemma_fan_out_completeness;
pub use laws::lemma_order_preservation;
pub use laws::lemma_topic_isolation;
pub use laws::lemma_unknown_topic_no_op;
pub use laws::registered_only_for;
