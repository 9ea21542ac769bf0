//! Merging, filtering and serving of electronic programme guides.
pub mod cache;
pub mod channel_laws;
pub mod channels;
pub mod config;
pub mod config_laws;
pub mod document_laws;
pub mod epg_load;
pub mod epg_load_laws;
pub mod epg_merge;
pub mod external;
pub mod fuzzy;
pub mod fuzzy_laws;
pub mod guide;
pub mod guide_laws;
pub mod merge_laws;
pub mod model;
pub mod normalize;
pub mod normalize_laws;
pub mod numbers;
pub mod playlist;
pub mod playlist_laws;
pub mod programme_laws;
pub mod provider;
pub mod provider_laws;
pub mod requests;
pub mod shared;
pub mod similarity;
pub mod sorting;
pub mod tag;
pub mod text;
pub mod text_laws;
pub mod time;
pub mod tvguide;
pub mod tvguide_laws;
pub mod xml;
pub mod xmltv;
pub mod xmltv_laws;
