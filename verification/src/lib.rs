//! Token-level attribution of KV-cache reuse and loss.

pub mod announcements;
pub mod barrier;
pub mod barrier_laws;
pub mod batch_count_laws;
pub mod branches;
pub mod catalog;
pub mod cold_epoch;
pub mod cold_laws;
pub mod cold_run;
pub mod control;
pub mod conversion_laws;
pub mod count_laws;
pub mod cut_laws;
pub mod domain_laws;
pub mod epoch_laws;
pub mod event;
pub mod evidence;
pub mod evidence_laws;
pub mod fault;
pub mod freshness;
pub mod funnel;
pub mod funnel_laws;
pub mod guard;
pub mod guard_laws;
pub mod history;
pub mod history_request;
pub mod label_laws;
pub mod ledger;
pub mod ledger_laws;
pub mod lifecycle_laws;
pub mod listener;
pub mod meaning_laws;
pub mod membership;
pub mod membership_laws;
pub mod metrics;
pub mod model;
pub mod observer;
pub mod order_laws;
pub mod order_loss_laws;
pub mod owner_map;
pub mod prefix;
pub mod prefix_laws;
pub mod prompt_source;
pub mod protocols;
pub mod random;
pub mod refusal_laws;
pub mod reply_laws;
pub mod request_guard;
pub mod request_laws;
pub mod resolve_laws;
pub mod resolver;
pub mod resolver_laws;
pub mod route;
pub mod route_laws;
pub mod sequence;
pub mod setting_laws;
pub mod settings;
pub mod snapshot;
pub mod snapshot_laws;
pub mod speculative_prefix_laws;
pub mod store_laws;
pub mod store_order_laws;
pub mod store_run_laws;
pub mod stream_laws;
pub mod subscription;
pub mod subscription_laws;
pub mod subscription_model;
pub mod table;
pub mod text;
pub mod tracker;
