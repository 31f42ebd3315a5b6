pub mod analyze;
pub mod args;
pub mod asked_laws;
pub mod asset_import;
pub mod asset_ops;
pub mod caption_laws;
pub mod color;
pub mod compare_laws;
pub mod coverage;
pub mod decode;
pub mod detect;
pub mod detect_laws;
pub mod diff;
pub mod digest;
pub mod digest_laws;
pub mod digest_report;
pub mod digest_title;
pub mod edit_laws;
pub mod edl;
pub mod edl_laws;
pub mod encode;
pub mod error;
pub mod fcpxml;
pub mod fcpxml_laws;
pub mod finding;
pub mod fits;
pub mod float_text;
pub mod grid_laws;
pub mod handover_laws;
pub mod ident;
pub mod import_laws;
pub mod inspect_ops;
pub mod interop;
pub mod json;
pub mod keep_laws;
pub mod lint;
pub mod lint_caption;
pub mod lint_duck;
pub mod lint_fits;
pub mod lint_laws;
pub mod lint_link;
pub mod lint_media;
pub mod lint_parts;
pub mod lint_source;
pub mod lint_timeline;
pub mod lint_title;
pub mod loop_ops;
pub mod loss_laws;
pub mod loss_parts;
pub mod losses;
pub mod media_laws;
pub mod mlt;
pub mod mlt_agree;
pub mod mlt_back;
pub mod mlt_build;
pub mod mlt_document;
pub mod mlt_frames;
pub mod mlt_ids;
pub mod mlt_laws;
pub mod mlt_length;
pub mod mlt_parts;
pub mod mlt_places;
pub mod mlt_read;
pub mod mlt_refs;
pub mod mlt_round;
pub mod mlt_shape;
pub mod mlt_tree;
pub mod mlt_unique;
pub mod mlt_write;
pub mod name_laws;
pub mod number;
pub mod ops;
pub mod order;
pub mod otio;
pub mod otio_laws;
pub mod otio_parts;
pub mod paths;
pub mod picture_laws;
pub mod probe;
pub mod probe_laws;
pub mod project;
pub mod proxy;
pub mod rational;
pub mod reading_laws;
pub mod report;
pub mod report_laws;
pub mod request_laws;
pub mod rule_laws;
pub mod scene_laws;
pub mod scene_ops;
pub mod server;
pub mod sheet;
pub mod sound_laws;
pub mod span;
pub mod speed_laws;
pub mod spelling_laws;
pub mod split_ops;
pub mod subtitle;
pub mod subtitle_laws;
pub mod text;
pub mod time;
pub mod time_laws;
pub mod time_text;
pub mod timeline;
pub mod title_laws;
pub mod toolchain;
pub mod tools;
pub mod transfer;
pub mod transfer_ops;
pub mod value_laws;
pub mod views;
pub mod xml;
pub mod xml_find;
