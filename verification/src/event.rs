//! Raw filesystem notifications, the events made of them, and the rule that
//! tells which raw notifications mean that content changed.

use vstd::prelude::*;

verus! {

/// What was created.
#[derive(Clone, Copy, Debug, PartialEq, Eq, Structural)]
pub enum CreateKind {
    /// The platform did not say.
    Any,
    /// A file.
    File,
    /// A folder.
    Folder,
    /// Something else.
    Other,
}

/// What of a file's data was modified.
#[derive(Clone, Copy, Debug, PartialEq, Eq, Structural)]
pub enum DataChange {
    /// The platform did not say.
    Any,
    /// The size.
    Size,
    /// The content.
    Content,
    /// Something else.
    Other,
}

/// What was modified.
#[derive(Clone, Copy, Debug, PartialEq, Eq, Structural)]
pub enum ModifyKind {
    /// The platform did not say.
    Any,
    /// The data that the file holds.
    Data(DataChange),
    /// Metadata only: times, permissions, ownership, attributes.
    Metadata,
    /// The name.
    Name,
    /// Something else.
    Other,
}

/// The kind of a raw notification.
#[derive(Clone, Copy, Debug, PartialEq, Eq, Structural)]
pub enum EventKind {
    /// The platform did not say.
    Any,
    /// Something was read, opened or closed.
    Access,
    /// Something was created.
    Create(CreateKind),
    /// Something was modified.
    Modify(ModifyKind),
    /// Something was removed.
    Remove,
    /// Something else.
    Other,
}

/// How the platform reports a write to a file.
#[derive(Clone, Copy, Debug, PartialEq, Eq, Structural)]
pub enum Platform {
    /// Every modification arrives as `Modify(Any)`.
    Windows,
    /// A write arrives as `Modify(Data(..))`, apart from changes of metadata
    /// and names.
    Other,
}

/// Whether `kind` is how `platform` reports that data was written to a file.
pub open spec fn is_data_written(kind: EventKind, platform: Platform) -> bool {
    match platform {
        Platform::Windows => kind == EventKind::Modify(ModifyKind::Any),
        Platform::Other => kind == EventKind::Modify(ModifyKind::Data(DataChange::Content)) || kind
            == EventKind::Modify(ModifyKind::Data(DataChange::Any)),
    }
}

/// Whether `kind` reports that a file was created.
pub open spec fn is_file_created(kind: EventKind) -> bool {
    kind == EventKind::Create(CreateKind::File)
}

/// Whether a raw notification of `kind` means that content changed: a file
/// was created, or data was written to one.
pub open spec fn is_content_change(kind: EventKind, platform: Platform) -> bool {
    is_file_created(kind) || is_data_written(kind, platform)
}

/// Tells whether a raw notification of `kind` is to be handled.
pub fn should_handle_event(kind: EventKind, platform: Platform) -> (handled: bool)
    ensures
        handled == is_content_change(kind, platform),
{
    match kind {
        EventKind::Create(CreateKind::File) => true,
        EventKind::Modify(ModifyKind::Any) => match platform {
            Platform::Windows => true,
            Platform::Other => false,
        },
        EventKind::Modify(ModifyKind::Data(DataChange::Content))
        | EventKind::Modify(ModifyKind::Data(DataChange::Any)) => match platform {
            Platform::Windows => false,
            Platform::Other => true,
        },
        _ => false,
    }
}

/// On every platform the creation of a file is handled, and so is what the
/// platform reports for a write of data; a change of metadata alone, an access,
/// a removal and the creation of a folder are handled on none.
pub proof fn lemma_platforms_agree(platform: Platform)
    ensures
        is_content_change(EventKind::Create(CreateKind::File), platform),
        forall|kind: EventKind| is_data_written(kind, platform) ==> is_content_change(kind, platform),
        !is_content_change(EventKind::Modify(ModifyKind::Metadata), platform),
        !is_content_change(EventKind::Modify(ModifyKind::Name), platform),
        !is_content_change(EventKind::Access, platform),
        !is_content_change(EventKind::Remove, platform),
        !is_content_change(EventKind::Create(CreateKind::Folder), platform),
{
}

/// A path that a raw notification reports, with what the filesystem said of it
/// when the notification was taken.
#[derive(Debug)]
pub struct ObservedPath {
    /// The path's text.
    pub path: String,
    /// Whether the path then led to a regular file, not to a directory and not
    /// to nothing.
    pub is_file: bool,
}

/// What an [`ObservedPath`] is, to the contracts.
pub struct ObservedPathView {
    pub path: Seq<char>,
    pub is_file: bool,
}

impl View for ObservedPath {
    type V = ObservedPathView;

    open spec fn view(&self) -> ObservedPathView {
        ObservedPathView { path: self.path@, is_file: self.is_file }
    }
}

impl ObservedPath {
    /// A path together with the filesystem's word on whether it is a regular file.
    pub fn new(path: String, is_file: bool) -> (observed: ObservedPath)
        ensures
            observed@ == (ObservedPathView { path: path@, is_file }),
    {
        ObservedPath { path, is_file }
    }
}

/// The views of observed paths, in their order.
pub open spec fn observed_views(paths: Seq<ObservedPath>) -> Seq<ObservedPathView> {
    paths.map_values(|path: ObservedPath| path@)
}

/// One raw notification: its kind and the paths that it reports.
#[derive(Debug)]
pub struct RawEvent {
    /// What happened.
    pub kind: EventKind,
    /// The paths that it happened to, in the order reported.
    pub paths: Vec<ObservedPath>,
}

/// What a [`RawEvent`] is, to the contracts.
pub struct RawEventView {
    pub kind: EventKind,
    pub paths: Seq<ObservedPathView>,
}

impl View for RawEvent {
    type V = RawEventView;

    open spec fn view(&self) -> RawEventView {
        RawEventView { kind: self.kind, paths: observed_views(self.paths@) }
    }
}

/// What is published to the consumer of the watcher.
#[derive(Debug, PartialEq, Eq)]
pub enum WatchEvent {
    /// These files changed, in the order in which the change was reported; the
    /// list is never empty.
    FilesChanged(Vec<String>),
    /// Watching failed after it had begun; the text describes the failure.
    WatchError(String),
}

/// What a [`WatchEvent`] is, to the contracts.
pub enum WatchEventView {
    FilesChanged(Seq<Seq<char>>),
    WatchError(Seq<char>),
}

impl View for WatchEvent {
    type V = WatchEventView;

    open spec fn view(&self) -> WatchEventView {
        match self {
            WatchEvent::FilesChanged(paths) => WatchEventView::FilesChanged(paths.deep_view()),
            WatchEvent::WatchError(description) => WatchEventView::WatchError(description@),
        }
    }
}

} // verus!
