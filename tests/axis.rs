use mapo::{
    fit_labels, Axis, Categorical, Direction, Interval, LabelPosition, LabelSize, LabelSpan,
    SequenceExt, Ticker,
};

fn span(pos: i64, width: u32, height: u32) -> LabelSpan {
    LabelSpan { pos, size: LabelSize { width, height } }
}

fn names(n: usize) -> Vec<String> {
    (0..n).map(|i| format!("c{}", i)).collect()
}

#[test]
fn all_labels_fit() {
    let labels: Vec<LabelSpan> = (0..5).map(|i| span(i * 20, 10, 50)).collect();
    assert_eq!(fit_labels(Direction::Horizontal, &labels), vec![0, 1, 2, 3, 4]);
}

#[test]
fn touching_labels_overlap() {
    // edges at 5 and 5 meet
    let labels = vec![span(0, 10, 1), span(10, 10, 1), span(20, 10, 1)];
    assert_eq!(fit_labels(Direction::Horizontal, &labels), vec![0, 2]);
    assert_eq!(fit_labels(Direction::Vertical, &labels), vec![0, 1, 2]);
}

#[test]
fn labels_are_thinned_to_every_other() {
    let labels: Vec<LabelSpan> = (0..7).map(|i| span(i * 20, 30, 5)).collect();
    assert_eq!(fit_labels(Direction::Horizontal, &labels), vec![0, 2, 4, 6]);
}

#[test]
fn labels_that_never_fit_give_none() {
    let labels: Vec<LabelSpan> = (0..6).map(|i| span(i, 100, 100)).collect();
    assert_eq!(fit_labels(Direction::Horizontal, &labels), Vec::<usize>::new());
    assert_eq!(fit_labels(Direction::Vertical, &labels), Vec::<usize>::new());
}

#[test]
fn few_labels() {
    assert_eq!(fit_labels(Direction::Horizontal, &[]), Vec::<usize>::new());
    assert_eq!(fit_labels(Direction::Horizontal, &[span(0, 100, 100)]), vec![0]);
    // two labels allow only step 1, so when they overlap none is kept
    let same = vec![span(0, 100, 100), span(0, 100, 100)];
    assert_eq!(fit_labels(Direction::Horizontal, &same), Vec::<usize>::new());
    let apart = vec![span(0, 10, 10), span(100, 10, 10)];
    assert_eq!(fit_labels(Direction::Horizontal, &apart), vec![0, 1]);
}

#[test]
fn seven_categories_fit_when_narrow() {
    // seven slots of 20 on an axis of 140, labels centred at 10, 30, ..., 130
    let mut t = Categorical::new(names(7)).space_around_ticker();
    t.layout(140);
    let narrow: Vec<LabelSpan> =
        (0..7).map(|i| span(t.get(i).unwrap().pos, 19, 12)).collect();
    assert_eq!(fit_labels(Direction::Horizontal, &narrow), vec![0, 1, 2, 3, 4, 5, 6]);
    let full: Vec<LabelSpan> = (0..7).map(|i| span(t.get(i).unwrap().pos, 20, 12)).collect();
    assert_eq!(fit_labels(Direction::Horizontal, &full), vec![0, 2, 4, 6]);
    let wide: Vec<LabelSpan> = (0..7).map(|i| span(t.get(i).unwrap().pos, 50, 12)).collect();
    assert_eq!(fit_labels(Direction::Horizontal, &wide), vec![0, 3, 6]);
}

#[test]
fn horizontal_axis_layout() {
    let ticker = Categorical::new(names(4)).space_around_ticker();
    let mut axis = Axis::new(Direction::Horizontal, LabelPosition::After, ticker);
    assert_eq!(axis.label_font_size(), 16);
    let ticks = axis.layout_ticks(400);
    assert_eq!(ticks.len(), 4);
    assert_eq!(ticks[0].pos, 50);
    let sizes = vec![LabelSize { width: 30, height: 12 }; 4];
    axis.layout_labels(&sizes);
    assert_eq!(axis.labels_to_draw(), vec![0, 1, 2, 3]);
    assert_eq!(axis.label_origin(0), (35, 8));
    assert_eq!(axis.size(), (400, 20));
    assert_eq!(axis.ticker().len(), 4);
}

#[test]
fn vertical_axis_layout() {
    let ticker = Interval::new(0, 100).ticker();
    let mut axis = Axis::new(Direction::Vertical, LabelPosition::Before, ticker);
    let ticks = axis.layout_ticks(600);
    let sizes: Vec<LabelSize> =
        ticks.iter().map(|t| LabelSize { width: 8 * t.label.len() as u32, height: 16 }).collect();
    axis.layout_labels(&sizes);
    assert_eq!(axis.labels_to_draw(), vec![0, 1, 2, 3, 4, 5]);
    // "100" is the widest label: 24
    assert_eq!(axis.size(), (24 + 8, 600));
    // "20" sits at 120, right-aligned
    assert_eq!(axis.label_origin(1), (8, 112));
    let ticker = Interval::new(0, 10).ticker();
    axis.set_ticker(ticker);
    axis.layout_ticks(600);
    let n = axis.ticker().len();
    axis.layout_labels(&vec![LabelSize { width: 10, height: 500 }; n]);
    assert_eq!(axis.labels_to_draw(), Vec::<usize>::new());
    assert_eq!(axis.size(), (8, 600));
}

#[test]
fn replacing_the_ticker_needs_a_new_layout() {
    let mut axis = Axis::new(
        Direction::Horizontal,
        LabelPosition::Before,
        Categorical::new(names(2)).space_between_ticker(),
    );
    assert!(!axis.has_layout());
    assert!(!axis.has_ticks());
    axis.layout_ticks(100);
    assert!(axis.has_ticks());
    axis.layout_labels(&[LabelSize { width: 10, height: 10 }; 2]);
    assert!(axis.has_layout());
    assert_eq!(axis.label_origin(1), (95, 0));
    assert_eq!(axis.direction(), Direction::Horizontal);
    assert_eq!(axis.label_pos(), LabelPosition::Before);
    axis.set_ticker(Categorical::new(names(3)).space_between_ticker());
    assert!(!axis.has_layout());
    assert!(!axis.has_ticks());
}
