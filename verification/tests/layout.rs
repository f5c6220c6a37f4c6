use mailc::layout::{body_scroll, centered, suggestion_popup, Area};

#[test]
fn a_box_is_centred_and_shrunk_to_fit() {
    let area = Area { x: 0, y: 0, width: 100, height: 40 };
    assert_eq!(centered(80, 22, area), Area { x: 10, y: 9, width: 80, height: 22 });
    let small = Area { x: 5, y: 2, width: 30, height: 10 };
    assert_eq!(centered(80, 22, small), Area { x: 5, y: 2, width: 30, height: 10 });
}

#[test]
fn the_body_scrolls_to_keep_the_cursor_on_screen() {
    assert_eq!(body_scroll(3, 10), 0);
    assert_eq!(body_scroll(9, 10), 0);
    assert_eq!(body_scroll(12, 10), 3);
    assert_eq!(body_scroll(5, 0), 5);
}

#[test]
fn suggestions_drop_down_as_wide_as_the_widest() {
    assert_eq!(
        suggestion_popup(10, 2, 100, 40, &vec![25, 30]),
        Some(Area { x: 10, y: 2, width: 32, height: 4 })
    );
    assert_eq!(suggestion_popup(10, 2, 100, 40, &vec![3]), Some(Area { x: 10, y: 2, width: 12, height: 3 }));
    assert_eq!(suggestion_popup(10, 2, 100, 40, &vec![300]), Some(Area { x: 10, y: 2, width: 52, height: 3 }));
    assert_eq!(suggestion_popup(10, 2, 30, 40, &vec![40]), Some(Area { x: 10, y: 2, width: 20, height: 3 }));
    assert_eq!(suggestion_popup(98, 2, 100, 40, &vec![40]), None);
}
