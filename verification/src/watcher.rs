//! Watchers, and what one makes of a raw notification.

use crate::event::is_content_change;
use crate::event::should_handle_event;
use crate::event::Platform;
use crate::event::RawEvent;
use crate::event::RawEventView;
use crate::event::WatchEvent;
use crate::event::WatchEventView;
use crate::debounce::within_throttle;
use crate::error::WatcherError;
use crate::event::ObservedPathView;
use crate::filter::lemma_batch_retains_candidates_only;
use crate::filter::lemma_batch_retains_each_path_once;
use crate::filter::FilterModel;
use crate::filter::PathFilter;
use vstd::prelude::*;

verus! {

/// Where a watcher publishes its events. Sending does not wait for the
/// consumer.
pub trait EventChannel {
    /// Hands `event` to the consumer.
    fn send_event(&self, event: WatchEvent);
}

/// Something that watches paths and publishes what changed under them.
pub trait Watcher: Sized {
    /// A watcher that publishes to `channel` and lets `filter` decide what is
    /// worth publishing.
    fn new<C: EventChannel + Send + 'static>(channel: C, filter: PathFilter) -> Result<
        Self,
        WatcherError,
    >;

    /// Begins to watch `path`.
    fn watch(&mut self, path: &str) -> Result<(), WatcherError>;

    /// Stops watching `path`.
    fn unwatch(&mut self, path: &str) -> Result<(), WatcherError>;
}

/// The watcher for when watching is switched off: it watches nothing and
/// publishes nothing, and every call succeeds.
#[derive(Debug, Clone, Copy, PartialEq, Eq)]
pub struct NopWatcher;

impl Watcher for NopWatcher {
    fn new<C: EventChannel + Send + 'static>(channel: C, filter: PathFilter) -> (made: Result<
        Self,
        WatcherError,
    >)
        ensures
            made.is_ok(),
    {
        Ok(NopWatcher)
    }

    fn watch(&mut self, path: &str) -> (done: Result<(), WatcherError>)
        ensures
            done.is_ok(),
    {
        Ok(())
    }

    fn unwatch(&mut self, path: &str) -> (done: Result<(), WatcherError>)
        ensures
            done.is_ok(),
    {
        Ok(())
    }
}

/// What a notification is, to the contracts: a raw event, or the description
/// of a failure.
pub open spec fn notification_view(notification: Result<RawEvent, String>) -> Result<
    RawEventView,
    Seq<char>,
> {
    match notification {
        Ok(event) => Ok(event@),
        Err(description) => Err(description@),
    }
}

/// What is published for a notification that `filter` takes at `now`. A
/// failure is published as it is. Of an event whose kind means that content
/// changed, the retained paths are published, if there is any. Nothing is
/// published for any other event.
pub open spec fn published(
    filter: FilterModel,
    platform: Platform,
    notification: Result<RawEventView, Seq<char>>,
    now: u128,
) -> Option<WatchEventView> {
    match notification {
        Err(description) => Some(WatchEventView::WatchError(description)),
        Ok(event) => if is_content_change(event.kind, platform) && filter.retained_of(
            event.paths,
            now,
        ).len() > 0 {
            Some(WatchEventView::FilesChanged(filter.retained_of(event.paths, now)))
        } else {
            None
        },
    }
}

/// The filter after it took a notification at `now`. An event whose kind means
/// that content changed has its paths checked and is followed by a cleanup,
/// whether or not a path was retained. Anything else leaves the filter alone.
pub open spec fn after_notification(
    filter: FilterModel,
    platform: Platform,
    notification: Result<RawEventView, Seq<char>>,
    now: u128,
) -> FilterModel {
    match notification {
        Ok(event) => if is_content_change(event.kind, platform) {
            filter.after_batch(event.paths, now).after_cleanup(now)
        } else {
            filter
        },
        Err(_) => filter,
    }
}

/// Takes one notification at the clock reading `now` and returns what is to
/// be published for it, if anything.
pub fn handle_notification_at(
    filter: &mut PathFilter,
    platform: Platform,
    notification: Result<RawEvent, String>,
    now: u128,
) -> (event: Option<WatchEvent>)
    ensures
        match event {
            Some(event) => published(old(filter)@, platform, notification_view(notification), now)
                == Some(event@),
            None => published(
                old(filter)@,
                platform,
                notification_view(notification),
                now,
            ).is_none(),
        },
        final(filter)@ == after_notification(
            old(filter)@,
            platform,
            notification_view(notification),
            now,
        ),
{
    match notification {
        Ok(raw) => {
            if should_handle_event(raw.kind, platform) {
                let retained = filter.retain_at(&raw.paths, now);
                filter.cleanup_debouncer_at(now);
                if retained.len() > 0 {
                    Some(WatchEvent::FilesChanged(retained))
                } else {
                    None
                }
            } else {
                None
            }
        },
        Err(description) => Some(WatchEvent::WatchError(description)),
    }
}

/// Takes one notification at the present reading of the filter's clock:
/// [`handle_notification_at`] for that reading.
pub fn handle_notification(
    filter: &mut PathFilter,
    platform: Platform,
    notification: Result<RawEvent, String>,
) -> (event: Option<WatchEvent>)
    ensures
        exists|now: u128|
            final(filter)@ == #[trigger] after_notification(
                old(filter)@,
                platform,
                notification_view(notification),
                now,
            ) && match event {
                Some(event) => published(
                    old(filter)@,
                    platform,
                    notification_view(notification),
                    now,
                ) == Some(event@),
                None => published(
                    old(filter)@,
                    platform,
                    notification_view(notification),
                    now,
                ).is_none(),
            },
{
    let now = filter.now();
    handle_notification_at(filter, platform, notification, now)
}

/// A list of changed files that is published is not empty, holds no path
/// twice, and holds only paths that the notification reported as regular files
/// and that have a configured extension.
pub proof fn lemma_published_files(
    filter: FilterModel,
    platform: Platform,
    event: RawEventView,
    now: u128,
)
    ensures
        match published(filter, platform, Ok(event), now) {
            Some(WatchEventView::FilesChanged(files)) => {
                &&& is_content_change(event.kind, platform)
                &&& files.len() > 0
                &&& files.no_duplicates()
                &&& forall|i: int|
                    0 <= i < files.len() ==> filter.matches(#[trigger] files[i])
                        && event.paths.contains(
                        ObservedPathView { path: files[i], is_file: true },
                    )
            },
            Some(WatchEventView::WatchError(_)) => false,
            None => true,
        },
{
    lemma_batch_retains_candidates_only(filter, event.paths, now);
    lemma_batch_retains_each_path_once(filter, event.paths, now);
}

/// After an event whose kind means that content changed was taken at `now`,
/// no remembered admission is older than the throttle, and every published
/// path is remembered with the stamp `now`.
pub proof fn lemma_nothing_stale_survives(
    filter: FilterModel,
    platform: Platform,
    event: RawEventView,
    now: u128,
)
    requires
        is_content_change(event.kind, platform),
    ensures
        ({
            let after = after_notification(filter, platform, Ok(event), now);
            &&& forall|path: Seq<char>| #[trigger]
                after.last_changed.contains_key(path) ==> within_throttle(
                    now,
                    after.last_changed[path],
                    after.debounce_throttle,
                )
            &&& forall|i: int|
                0 <= i < filter.retained_of(event.paths, now).len() ==> {
                    let path = #[trigger] filter.retained_of(event.paths, now)[i];
                    after.last_changed.contains_key(path) && after.last_changed[path] == now
                }
        }),
{
    lemma_batch_retains_candidates_only(filter, event.paths, now);
    lemma_batch_retains_each_path_once(filter, event.paths, now);
}

/// A raw event whose kind does not mean that content changed publishes
/// nothing and leaves the filter as it was, and so does a failure leave the
/// filter, which is published as it is.
pub proof fn lemma_other_notifications(
    filter: FilterModel,
    platform: Platform,
    notification: Result<RawEventView, Seq<char>>,
    now: u128,
)
    ensures
        match notification {
            Ok(event) => !is_content_change(event.kind, platform) ==> published(
                filter,
                platform,
                notification,
                now,
            ).is_none() && after_notification(filter, platform, notification, now) == filter,
            Err(description) => published(filter, platform, notification, now) == Some(
                WatchEventView::WatchError(description),
            ) && after_notification(filter, platform, notification, now) == filter,
        },
{
}

} // verus!
