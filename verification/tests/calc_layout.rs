use asayake::calc_layout::{colums, rows, LayoutError, Rect, WorkspaceWithLayout};
use asayake::structs::{ContainerForSend, Icon, WindowForSend};
use rand::Rng as _;

fn make_mock_container() -> ContainerForSend {
    ContainerForSend {
        windows: vec![WindowForSend {
            id: rand::thread_rng().gen(),
            icon: Icon::default(),
            accent_color: 0x000000,
        }],
    }
}

fn make_mock_containers(num_items: u8) -> Vec<ContainerForSend> {
    (0..num_items).into_iter().map(|_| make_mock_container()).collect()
}

fn container_with_id(id: u16) -> ContainerForSend {
    ContainerForSend {
        windows: vec![WindowForSend { id, icon: Icon::default(), accent_color: 0 }],
    }
}

#[test]
fn test_row_two_containers() {
    let layout_rects = rows(&make_mock_containers(2)).unwrap().into_values();
    assert_eq!(
        layout_rects,
        vec![
            Rect { left_top: (0, 0), right_bottom: (255, 127) },
            Rect { left_top: (0, 127), right_bottom: (255, 254) }
        ]
    );
}

#[test]
fn test_colums_two_containers() {
    let layout_rects = colums(&make_mock_containers(2)).unwrap().into_values();
    assert_eq!(
        layout_rects,
        vec![
            Rect { left_top: (0, 0), right_bottom: (127, 255) },
            Rect { left_top: (127, 0), right_bottom: (254, 255) }
        ]
    );
}

#[test]
fn columns_tile_the_workspace() {
    let items: Vec<ContainerForSend> = (0..3).map(container_with_id).collect();
    let rects = colums(&items).unwrap().into_values();
    assert_eq!(
        rects,
        vec![
            Rect { left_top: (0, 0), right_bottom: (85, 255) },
            Rect { left_top: (85, 0), right_bottom: (170, 255) },
            Rect { left_top: (170, 0), right_bottom: (255, 255) },
        ]
    );
    let one = colums(&vec![container_with_id(9)]).unwrap().into_values();
    assert_eq!(one, vec![Rect { left_top: (0, 0), right_bottom: (255, 255) }]);
}

#[test]
fn rows_are_transposed_columns() {
    let items: Vec<ContainerForSend> = (0..5).map(container_with_id).collect();
    let cols = colums(&items).unwrap().into_values();
    let rws = rows(&items).unwrap().into_values();
    assert_eq!(cols.len(), rws.len());
    for (c, r) in cols.iter().zip(rws.iter()) {
        assert_eq!((c.left_top.1, c.left_top.0), r.left_top);
        assert_eq!((c.right_bottom.1, c.right_bottom.0), r.right_bottom);
    }
}

#[test]
fn too_many_containers() {
    let items: Vec<ContainerForSend> = (0..256).map(container_with_id).collect();
    assert_eq!(colums(&items).unwrap_err(), LayoutError::TooManyContainers);
    assert_eq!(rows(&items).unwrap_err(), LayoutError::TooManyContainers);
    let items: Vec<ContainerForSend> = (0..255).map(container_with_id).collect();
    let rects = colums(&items).unwrap().into_values();
    assert_eq!(rects.len(), 255);
    assert_eq!(rects[254], Rect { left_top: (254, 0), right_bottom: (255, 255) });
}

#[test]
fn equal_containers_share_one_entry() {
    // The second container equals the first, so it takes over the first's entry.
    let items = vec![container_with_id(1), container_with_id(1), container_with_id(2)];
    let layout = colums(&items).unwrap();
    assert_eq!(layout.len(), 2);
    assert_eq!(
        layout.get(&container_with_id(1)),
        Some(Rect { left_top: (85, 0), right_bottom: (170, 255) })
    );
    assert_eq!(layout.get(&container_with_id(3)), None);
    assert_eq!(
        layout.into_values(),
        vec![
            Rect { left_top: (85, 0), right_bottom: (170, 255) },
            Rect { left_top: (170, 0), right_bottom: (255, 255) },
        ]
    );
}

#[test]
fn insert_replaces_in_place() {
    let mut layout = WorkspaceWithLayout::new();
    let a = Rect { left_top: (0, 0), right_bottom: (1, 1) };
    let b = Rect { left_top: (2, 2), right_bottom: (3, 3) };
    layout.insert(container_with_id(1), a);
    layout.insert(container_with_id(2), a);
    layout.insert(container_with_id(1), b);
    assert_eq!(layout.len(), 2);
    assert_eq!(layout.into_values(), vec![b, a]);
}
