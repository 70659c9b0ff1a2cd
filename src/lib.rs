// Timeline compilation and media export.
//
// - `edit_plan`: project descriptions, the validated edit plan and its builder
// - `cache`: where intermediate and output artifacts go
// - `export`: the export pipeline as a state machine driven by its caller
// - `capture`: capture commands and the registry of running sessions
// - `devices`: classification of a capture-device listing
// - `media`, `ingest`: media metadata, preview frames, file kinds
// - `text`: string building and searching used by the rest

pub mod text;
pub mod edit_plan;
pub mod cache;
pub mod export;
pub mod capture;
pub mod devices;
pub mod media;
pub mod ingest;
