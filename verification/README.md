# Lookout

The logic of a mail, calendar and contacts client for the GNOME desktop, written and proved in
Verus.

- `src/` is the library. Every function states in its contract what it returns or changes, and
  public proof functions named `lemma_..` state what holds of several functions together. Outside
  crates (`chrono`, `serde_json`, `base64`, `uuid`) are called through small functions whose doc
  comments say what is believed of them.
- `app/` reads and writes files, talks to the session bus, the keyring and servers, asks the clock
  and computes with pixels. It asks the library for every decision. Widgets are left to whoever
  builds a window on it.
- `tests/` runs the library on concrete values.

| Subject | Modules |
| --- | --- |
| Text and order | `text`, `pieces`, `sorting`, `encodings`, `fresh_ids`, `paths` |
| Dates and times | `dates` |
| Calendar | `calendar_days`, `calendar_main`, `calendar_months`, `calendar_view`, `calendar_colors`, `luminance`, `lanes`, `time_grid`, `grid_pointer`, `event_editor`, `event_input`, `event_print` |
| Mail | `folder_tree`, `compose`, `compose_html`, `composer`, `editor_content`, `drafts` |
| Contacts | `contacts`, `card_views`, `contacts_editor`, `contacts_pane`, `contacts_sync`, `contacts_updates`, `contact_picker` |
| Assistant | `assistant`, `assistant_tools`, `assistant_chat`, `tool_results`, `tool_runs`, `chat_request`, `chat_links` |
| Settings | `app_config`, `background`, `background_image`, `config_view`, `credentials` |
