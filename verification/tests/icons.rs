use termviai::icons::{GridCoord, Icon, PolyCommand, PolyStyle};

const ALL: &[Icon] = &[
    Icon::Menu,
    Icon::Hosts,
    Icon::Key,
    Icon::Terminal,
    Icon::Search,
    Icon::Plus,
    Icon::Close,
    Icon::ChevronLeft,
    Icon::ChevronRight,
    Icon::ChevronDown,
    Icon::ChevronUp,
    Icon::Minimize,
    Icon::Maximize,
    Icon::Restore,
    Icon::Grid,
    Icon::List,
    Icon::Folder,
    Icon::Edit,
    Icon::Check,
    Icon::Checkbox,
    Icon::CheckboxChecked,
    Icon::Broadcast,
    Icon::SplitRight,
    Icon::SplitDown,
    Icon::ArrowLeft,
    Icon::ArrowRight,
    Icon::Settings,
    Icon::More,
    Icon::Link,
    Icon::Power,
];

fn check_point(point: (GridCoord, GridCoord)) {
    assert!((0..=24).contains(&point.0 .0));
    assert!((0..=24).contains(&point.1 .0));
}

#[test]
fn vector_icons_have_valid_paths_at_multiple_dpi_scales() {
    for icon in ALL {
        let polys = icon.poly();
        assert!(!polys.is_empty(), "{:?}", icon);
        for poly in &polys {
            assert!(!poly.path.is_empty());
            let mut has_start = false;
            for command in &poly.path {
                match *command {
                    PolyCommand::MoveTo(x, y) => {
                        check_point((x, y));
                        has_start = true;
                    }
                    PolyCommand::LineTo(x, y) => {
                        assert!(has_start, "{:?} draws before MoveTo", icon);
                        check_point((x, y));
                    }
                    PolyCommand::QuadTo { control, to } => {
                        assert!(has_start);
                        check_point(control);
                        check_point(to);
                    }
                    PolyCommand::Circle { center, radius } => {
                        check_point(center);
                        assert!(radius.0 > 0);
                        for coord in [center.0, center.1] {
                            assert!(coord.0 - radius.0 >= 1);
                            assert!(coord.0 + radius.0 <= 23);
                        }
                    }
                    PolyCommand::Close => assert!(has_start),
                }
            }
        }
    }
}

#[test]
fn checked_boxes_add_a_tick_to_the_frame() {
    let boxed = Icon::Checkbox.poly();
    let checked = Icon::CheckboxChecked.poly();
    assert_eq!(boxed.len(), 1);
    assert_eq!(checked.len(), 2);
    assert_eq!(checked[0].path, boxed[0].path);
    assert_eq!(Icon::More.poly()[0].style, PolyStyle::Fill);
    assert_eq!(Icon::Menu.poly()[0].path[0], PolyCommand::MoveTo(GridCoord(4), GridCoord(6)));
}
