//! The verified core of Lookout, a desktop mail, calendar and contacts client.

pub mod app_config;
pub mod assistant;
pub mod assistant_chat;
pub mod assistant_tools;
pub mod background;
pub mod background_image;
pub mod calendar_colors;
pub mod calendar_days;
pub mod calendar_laws;
pub mod calendar_main;
pub mod calendar_months;
pub mod calendar_view;
pub mod card_views;
pub mod chat_laws;
pub mod chat_links;
pub mod chat_request;
pub mod compose;
pub mod compose_html;
pub mod composer;
pub mod config_laws;
pub mod config_view;
pub mod contact_laws;
pub mod contact_picker;
pub mod contacts;
pub mod contacts_editor;
pub mod contacts_pane;
pub mod contacts_sync;
pub mod contacts_updates;
pub mod credentials;
pub mod dates;
pub mod drafts;
pub mod editor_content;
pub mod encodings;
pub mod event_editor;
pub mod event_input;
pub mod event_print;
pub mod folder_tree;
pub mod fresh_ids;
pub mod grid_pointer;
pub mod html_laws;
pub mod lanes;
pub mod luminance;
pub mod model;
pub mod paths;
pub mod people_laws;
pub mod pieces;
pub mod sorting;
pub mod text;
pub mod text_laws;
pub mod time_grid;
pub mod tool_laws;
pub mod tool_results;
pub mod tool_runs;
