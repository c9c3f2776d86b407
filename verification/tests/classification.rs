use watch_filter::event::should_handle_event;
use watch_filter::event::CreateKind;
use watch_filter::event::DataChange;
use watch_filter::event::EventKind;
use watch_filter::event::ModifyKind;
use watch_filter::event::Platform;

const PLATFORMS: [Platform; 2] = [Platform::Windows, Platform::Other];

#[test]
fn file_creation_is_handled_on_every_platform() {
    for platform in PLATFORMS {
        assert!(should_handle_event(EventKind::Create(CreateKind::File), platform));
    }
}

#[test]
fn data_write_is_handled_as_the_platform_reports_it() {
    let content = EventKind::Modify(ModifyKind::Data(DataChange::Content));
    let any_data = EventKind::Modify(ModifyKind::Data(DataChange::Any));
    let any_modification = EventKind::Modify(ModifyKind::Any);
    assert!(should_handle_event(content, Platform::Other));
    assert!(should_handle_event(any_data, Platform::Other));
    assert!(should_handle_event(any_modification, Platform::Windows));
    assert!(!should_handle_event(any_modification, Platform::Other));
    assert!(!should_handle_event(content, Platform::Windows));
    assert!(!should_handle_event(any_data, Platform::Windows));
}

#[test]
fn metadata_change_is_handled_on_no_platform() {
    for platform in PLATFORMS {
        assert!(!should_handle_event(EventKind::Modify(ModifyKind::Metadata), platform));
        assert!(!should_handle_event(EventKind::Modify(ModifyKind::Name), platform));
        assert!(!should_handle_event(EventKind::Modify(ModifyKind::Other), platform));
    }
}

#[test]
fn size_change_alone_is_not_handled() {
    for platform in PLATFORMS {
        assert!(!should_handle_event(EventKind::Modify(ModifyKind::Data(DataChange::Size)), platform));
        assert!(!should_handle_event(EventKind::Modify(ModifyKind::Data(DataChange::Other)), platform));
    }
}

#[test]
fn other_kinds_are_not_handled() {
    for platform in PLATFORMS {
        assert!(!should_handle_event(EventKind::Any, platform));
        assert!(!should_handle_event(EventKind::Access, platform));
        assert!(!should_handle_event(EventKind::Remove, platform));
        assert!(!should_handle_event(EventKind::Other, platform));
        assert!(!should_handle_event(EventKind::Create(CreateKind::Any), platform));
        assert!(!should_handle_event(EventKind::Create(CreateKind::Folder), platform));
        assert!(!should_handle_event(EventKind::Create(CreateKind::Other), platform));
    }
}
