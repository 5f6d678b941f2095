mod analyze;
mod flatten;
mod parse;
mod records;

pub use parse::ParseError;
pub use parse::parsed_events;
pub use parse::flatten_document;
pub use parse::chain_texts;
pub use parse::all_parse;
pub use parse::chain_layers;
pub use parse::PointlessPointer;

pub use flatten::YamlEvent;
pub use flatten::EventV;
pub use flatten::ParseState;
pub use flatten::StateV;
pub use flatten::CollectorV;
pub use flatten::YamlValueCollector;
pub use flatten::events_view;
pub use flatten::quoted;
pub use flatten::joined;
pub use flatten::bracketed;
pub use flatten::init_collector;
pub use flatten::step;
pub use flatten::run;
pub use flatten::flatten_spec;
pub use flatten::quote_item;
pub use flatten::join_items;
pub use flatten::flatten_events;
pub use flatten::erase_rec_file;
pub use flatten::erase_file;
pub use flatten::lemma_run_depth_bounds;
pub use flatten::lemma_flatten_file_independent;

pub use analyze::Override;
pub use analyze::DuplicateKeyWarning;
pub use analyze::OverrideV;
pub use analyze::WarningV;
pub use analyze::ov_view;
pub use analyze::ovs_view;
pub use analyze::warn_view;
pub use analyze::warns_view;
pub use analyze::mk_override;
pub use analyze::mk_warning;
pub use analyze::intra_seen;
pub use analyze::intra_pointless;
pub use analyze::intra_warnings;
pub use analyze::all_intra_pointless;
pub use analyze::all_intra_warnings;
pub use analyze::fold_layer;
pub use analyze::snapshot;
pub use analyze::concat_layers;
pub use analyze::layer_pointless;
pub use analyze::cross_layer_pointless;
pub use analyze::pointless_spec;
pub use analyze::warnings_spec;
pub use analyze::assoc_get;
pub use analyze::find_pointless_overrides_and_warnings;
pub use analyze::lemma_snapshot_is_last_writer;
pub use analyze::lemma_pointless_override_reported;
pub use analyze::lemma_layer_findings_match_snapshot;
pub use analyze::lemma_differing_override_not_flagged;
pub use analyze::lemma_analysis_deterministic;

pub use records::rec_view;
pub use records::recs_view;
pub use records::layers_view;
pub use records::RecordV;
pub use records::ValueWithLocation;
pub use records::clone_path;
pub use records::clone_record;
pub use records::path_eq;
