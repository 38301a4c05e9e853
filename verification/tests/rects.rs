use tiling::geometry::{Rect, SplitError};
use tiling::ratio::Ratio;

fn holds(r: &Rect, px: u32, py: u32) -> bool {
    r.x <= px && px < r.x + r.w && r.y <= py && py < r.y + r.h
}

/// How many of `parts` hold each pixel of `whole`: `Some(k)` if every pixel
/// lies in exactly `k` parts.
fn parts_per_pixel(parts: &[Rect], whole: &Rect) -> Option<usize> {
    let mut seen: Option<usize> = None;
    for px in whole.x..whole.x + whole.w {
        for py in whole.y..whole.y + whole.h {
            let k = parts.iter().filter(|p| holds(p, px, py)).count();
            match seen {
                None => seen = Some(k),
                Some(j) if j == k => {}
                Some(_) => return None,
            }
        }
    }
    seen
}

fn area(r: &Rect) -> u64 {
    r.w as u64 * r.h as u64
}

#[test]
fn new_keeps_the_fields() {
    let r = Rect::new(1, 2, 3, 4);
    assert_eq!(r, Rect { x: 1, y: 2, w: 3, h: 4 });
}

#[test]
fn is_wf_tells_whether_the_edges_fit() {
    assert!(Rect::new(0, 0, u32::MAX, u32::MAX).is_wf());
    assert!(Rect::new(u32::MAX, 5, 0, 0).is_wf());
    assert!(!Rect::new(1, 0, u32::MAX, 10).is_wf());
    assert!(!Rect::new(0, 2, 10, u32::MAX - 1).is_wf());
}

#[test]
fn split_at_width_keeps_the_corner_in_the_first_part() {
    let r = Rect::new(10, 20, 100, 50);
    let (a, b) = r.split_at_width(30).unwrap();
    assert_eq!(a, Rect::new(10, 20, 30, 50));
    assert_eq!(b, Rect::new(40, 20, 70, 50));
}

#[test]
fn split_at_width_accepts_the_full_width() {
    let r = Rect::new(10, 20, 100, 50);
    let (a, b) = r.split_at_width(100).unwrap();
    assert_eq!(a, r);
    assert_eq!(b, Rect::new(110, 20, 0, 50));
}

#[test]
fn split_at_width_accepts_zero() {
    let r = Rect::new(10, 20, 100, 50);
    let (a, b) = r.split_at_width(0).unwrap();
    assert_eq!(a, Rect::new(10, 20, 0, 50));
    assert_eq!(b, r);
}

#[test]
fn split_at_width_rejects_more_than_the_width() {
    let r = Rect::new(10, 20, 100, 50);
    assert_eq!(r.split_at_width(101), Err(SplitError::InvalidSplit));
    assert_eq!(r.split_at_width(u32::MAX), Err(SplitError::InvalidSplit));
}

#[test]
fn split_at_height_cuts_from_the_top() {
    let r = Rect::new(10, 20, 100, 50);
    let (a, b) = r.split_at_height(20).unwrap();
    assert_eq!(a, Rect::new(10, 20, 100, 20));
    assert_eq!(b, Rect::new(10, 40, 100, 30));
    assert_eq!(r.split_at_height(51), Err(SplitError::InvalidSplit));
}

#[test]
fn split_at_width_perc_rounds_down() {
    let r = Rect::new(0, 0, 10, 10);
    let (a, b) = r.split_at_width_perc(Ratio::from_millis(333)).unwrap();
    assert_eq!(a, Rect::new(0, 0, 3, 10));
    assert_eq!(b, Rect::new(3, 0, 7, 10));
}

#[test]
fn split_at_width_perc_at_the_ends_of_the_interval() {
    let r = Rect::new(5, 5, 80, 40);
    let (a, b) = r.split_at_width_perc(Ratio::from_millis(0)).unwrap();
    assert_eq!((a, b), (Rect::new(5, 5, 0, 40), r));
    let (a, b) = r.split_at_width_perc(Ratio::from_millis(1000)).unwrap();
    assert_eq!((a, b), (r, Rect::new(85, 5, 0, 40)));
}

#[test]
fn split_at_width_perc_rejects_fractions_outside_the_interval() {
    let r = Rect::new(0, 0, 100, 100);
    assert_eq!(r.split_at_width_perc(Ratio::from_millis(1001)), Err(SplitError::InvalidRatio));
    assert_eq!(r.split_at_width_perc(Ratio::from_millis(-1)), Err(SplitError::InvalidRatio));
    assert_eq!(r.split_at_width_perc(Ratio::from_millis(i32::MIN)), Err(SplitError::InvalidRatio));
}

#[test]
fn split_at_height_perc_splits_and_rejects() {
    let r = Rect::new(50, 0, 50, 100);
    let (a, b) = r.split_at_height_perc(Ratio::from_millis(500)).unwrap();
    assert_eq!(a, Rect::new(50, 0, 50, 50));
    assert_eq!(b, Rect::new(50, 50, 50, 50));
    assert_eq!(r.split_at_height_perc(Ratio::from_millis(2000)), Err(SplitError::InvalidRatio));
    assert_eq!(r.split_at_height_perc(Ratio::from_millis(-500)), Err(SplitError::InvalidRatio));
}

#[test]
fn split_at_mid_width_gives_the_right_half_the_odd_pixel() {
    let (a, b) = Rect::new(0, 0, 101, 10).split_at_mid_width();
    assert_eq!(a, Rect::new(0, 0, 50, 10));
    assert_eq!(b, Rect::new(50, 0, 51, 10));
}

#[test]
fn split_at_mid_height_gives_the_lower_half_the_odd_pixel() {
    let (a, b) = Rect::new(3, 4, 10, 7).split_at_mid_height();
    assert_eq!(a, Rect::new(3, 4, 10, 3));
    assert_eq!(b, Rect::new(3, 7, 10, 4));
}

#[test]
fn mid_splits_of_an_empty_rectangle_succeed() {
    let r = Rect::new(7, 9, 0, 0);
    assert_eq!(r.split_at_mid_width(), (r, r));
    assert_eq!(r.split_at_mid_height(), (r, r));
}

#[test]
fn as_rows_gives_the_last_row_the_remainder() {
    let rows = Rect::new(0, 0, 10, 10).as_rows(3);
    assert_eq!(rows, vec![Rect::new(0, 0, 10, 3), Rect::new(0, 3, 10, 3), Rect::new(0, 6, 10, 4)]);
}

#[test]
fn as_columns_gives_the_last_column_the_remainder() {
    let columns = Rect::new(10, 20, 11, 5).as_columns(4);
    assert_eq!(
        columns,
        vec![
            Rect::new(10, 20, 2, 5),
            Rect::new(12, 20, 2, 5),
            Rect::new(14, 20, 2, 5),
            Rect::new(16, 20, 5, 5),
        ]
    );
}

#[test]
fn as_rows_of_one_is_the_rectangle() {
    let r = Rect::new(1, 2, 3, 4);
    assert_eq!(r.as_rows(1), vec![r]);
    assert_eq!(r.as_columns(1), vec![r]);
}

#[test]
fn as_rows_with_more_rows_than_pixels() {
    let rows = Rect::new(0, 0, 4, 2).as_rows(3);
    assert_eq!(rows, vec![Rect::new(0, 0, 4, 0), Rect::new(0, 0, 4, 0), Rect::new(0, 0, 4, 2)]);
}

#[test]
fn rows_and_columns_sum_to_the_whole() {
    let r = Rect::new(3, 5, 47, 29);
    for n in 1..=9u32 {
        let rows = r.as_rows(n);
        assert_eq!(rows.len(), n as usize);
        assert_eq!(rows.iter().map(|p| p.h).sum::<u32>(), r.h);
        assert_eq!(parts_per_pixel(&rows, &r), Some(1));
        let columns = r.as_columns(n);
        assert_eq!(columns.len(), n as usize);
        assert_eq!(columns.iter().map(|p| p.w).sum::<u32>(), r.w);
        assert_eq!(parts_per_pixel(&columns, &r), Some(1));
    }
}

#[test]
fn every_split_is_a_partition() {
    let r = Rect::new(2, 3, 13, 9);
    let mut splits = vec![r.split_at_mid_width(), r.split_at_mid_height()];
    for at in 0..=13 {
        splits.push(r.split_at_width(at).unwrap());
    }
    for at in 0..=9 {
        splits.push(r.split_at_height(at).unwrap());
    }
    for millis in [0, 1, 250, 500, 999, 1000] {
        splits.push(r.split_at_width_perc(Ratio::from_millis(millis)).unwrap());
        splits.push(r.split_at_height_perc(Ratio::from_millis(millis)).unwrap());
    }
    for (a, b) in splits {
        assert_eq!(area(&a) + area(&b), area(&r));
        assert_eq!(parts_per_pixel(&[a, b], &r), Some(1));
        assert_eq!((a.x, a.y), (r.x, r.y));
    }
}

#[test]
fn splits_at_the_far_corner_of_the_plane() {
    let r = Rect::new(u32::MAX - 10, u32::MAX - 4, 10, 4);
    let (a, b) = r.split_at_width(10).unwrap();
    assert_eq!(a, r);
    assert_eq!(b, Rect::new(u32::MAX, u32::MAX - 4, 0, 4));
    let (a, b) = r.split_at_mid_height();
    assert_eq!(a, Rect::new(u32::MAX - 10, u32::MAX - 4, 10, 2));
    assert_eq!(b, Rect::new(u32::MAX - 10, u32::MAX - 2, 10, 2));
}
