use life::walker::Walker;

fn collect(mut w: Walker) -> Vec<(u32, u32)> {
    let mut out = Vec::new();
    while let Some(c) = w.next() {
        out.push(c);
    }
    out
}

#[test]
fn walker_scans_rows_in_order() {
    let coords = collect(Walker::new(3, 2));
    assert_eq!(coords, vec![(0, 0), (1, 0), (2, 0), (0, 1), (1, 1), (2, 1)]);
}

#[test]
fn walker_visits_each_cell_once() {
    let (w, h) = (7u32, 5u32);
    let coords = collect(Walker::new(w, h));
    assert_eq!(coords.len(), (w * h) as usize);
    for y in 0..h {
        for x in 0..w {
            assert_eq!(coords.iter().filter(|c| **c == (x, y)).count(), 1);
        }
    }
    assert!(coords.iter().all(|&(x, y)| x < w && y < h));
}

#[test]
fn walker_stays_finished() {
    let mut w = Walker::new(1, 1);
    assert_eq!(w.next(), Some((0, 0)));
    assert_eq!(w.next(), None);
    assert_eq!(w.next(), None);
    assert_eq!(w.next(), None);
}

#[test]
fn walker_over_empty_board_yields_nothing() {
    assert_eq!(collect(Walker::new(0, 4)), vec![]);
    assert_eq!(collect(Walker::new(4, 0)), vec![]);
    assert_eq!(collect(Walker::new(0, 0)), vec![]);
}
