//! Tests of the icon asset listing.
use ade::assets::{all_icons, AdeAssets, ICON_CLOCK, ICON_FILE_DIFF, ICON_GIT_BRANCH};
use ade::panes::{CloseResult, SplitDirection};

#[test]
fn test_load_all_icons() {
    let assets = AdeAssets;
    for path in all_icons() {
        let result = assets.icon_index(path);
        assert!(
            result.is_some(),
            "Expected Some for icon path '{path}', got None"
        );
        let index = result.unwrap();
        assert_eq!(all_icons()[index], path, "Icon '{path}' should name its own entry");
    }
}

#[test]
fn test_load_unknown_returns_none() {
    let assets = AdeAssets;
    let result = assets.icon_index("icons/nonexistent.svg");
    assert!(result.is_none(), "Unknown path should return None");
    assert_eq!(assets.icon_index("icons/clock-3"), None);
    assert_eq!(assets.icon_index("icons/clock-3.svg.bak"), None);
    assert_eq!(assets.icon_index(ICON_CLOCK), Some(1));
}

#[test]
fn test_list_icons() {
    let assets = AdeAssets;
    let entries = assets.list("icons/");
    assert_eq!(entries.len(), 6, "Expected 6 icons, got {}", entries.len());
}

#[test]
fn test_list_icons_by_prefix() {
    let assets = AdeAssets;
    assert_eq!(assets.list("icons/c"), vec![ICON_CLOCK, "icons/columns-2.svg"]);
    assert_eq!(assets.list(""), all_icons());
    assert!(assets.list("images/").is_empty());
    assert_eq!(assets.list(ICON_GIT_BRANCH), vec![ICON_GIT_BRANCH]);
    assert_eq!(all_icons()[0], ICON_FILE_DIFF);
}

#[test]
fn test_pane_vocabulary() {
    assert_ne!(SplitDirection::Vertical, SplitDirection::Horizontal);
    assert!(matches!(CloseResult::LastPane, CloseResult::LastPane));
}
