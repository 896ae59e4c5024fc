//! The logic behind the desktop application: links and sections, what the
//! editor remembers between notes, the live-sharing web view, pasting.
pub mod clipboard;
pub mod content;
pub mod doc_tree;
pub mod git_sync;
pub mod history;
pub mod link_edit;
pub mod link_handler;
pub mod live_share;
pub mod markdown;
pub mod markdown_converter;
pub mod navigation;
pub mod nonprintable;
pub mod on_air_bar;
pub mod page_picker;
pub mod percent;
pub mod position_memory;
pub mod recency;
pub mod rtf;
pub mod rtf_check;
pub mod scroll_memory;
pub mod search_bar;
pub mod section_link;
pub mod settings;
pub mod share_page;
pub mod share_render;
pub mod share_server;
pub mod statusbar;
pub mod timestamp;
pub mod window_state;
