use mapo::{
    Categorical, Interval, IntervalTicker, Numeric, ReverseTicker, Sequence, SequenceExt,
    SpaceAroundTicker, SpaceBetweenTicker, Tick, Ticker, TickerExt,
};

fn all_ticks<T: Ticker>(t: &T) -> Vec<(i64, String)> {
    (0..t.len()).map(|i| t.get(i).unwrap()).map(|t: Tick| (t.pos, t.label)).collect()
}

fn names(items: &[&str]) -> Vec<String> {
    items.iter().map(|s| s.to_string()).collect()
}

#[test]
fn interval_ticker_labels_and_positions() {
    // an axis of 300 asks for at most 5 ticks: [0, 1] gets 0, 0.5 and 1
    let mut t = IntervalTicker::new(Interval::new(0, 1));
    t.layout(300);
    assert_eq!(
        all_ticks(&t),
        vec![(0, "0".to_string()), (150, "0.5".to_string()), (300, "1".to_string())]
    );
    assert!(t.get(3).is_none());
}

#[test]
fn interval_ticker_negative_values() {
    // [-1, 1] on 300: at most 5 ticks, so every 0.5
    let mut t = Interval::new(-1, 1).ticker();
    t.layout(300);
    let labels: Vec<String> = all_ticks(&t).into_iter().map(|(_, l)| l).collect();
    assert_eq!(labels, names(&["-1", "-0.5", "0", "0.5", "1"]));
    let positions: Vec<i64> = all_ticks(&t).into_iter().map(|(p, _)| p).collect();
    assert_eq!(positions, vec![0, 75, 150, 225, 300]);
}

#[test]
fn interval_ticker_whole_values() {
    // [0, 100] on 600: at most 10 ticks, so every 20
    let mut t = IntervalTicker::new(Interval::new(0, 100));
    t.layout(600);
    assert_eq!(t.len(), 6);
    assert_eq!(t.get(1).unwrap().label, "20");
    assert_eq!(t.get(1).unwrap().pos, 120);
    assert_eq!(t.get(5).unwrap().pos, 600);
}

#[test]
fn interval_ticker_short_axis_has_no_ticks() {
    let mut t = IntervalTicker::new(Interval::new(0, 100));
    t.layout(119);
    assert_eq!(t.len(), 0);
    assert!(t.get(0).is_none());
}

#[test]
fn layout_twice_is_layout_once() {
    let mut once = IntervalTicker::new(Interval::new(-37, 1234));
    once.layout(777);
    let mut twice = IntervalTicker::new(Interval::new(-37, 1234));
    twice.layout(777);
    twice.layout(777);
    assert_eq!(all_ticks(&once), all_ticks(&twice));
    let mut other = IntervalTicker::new(Interval::new(-37, 1234));
    other.layout(100);
    other.layout(777);
    assert_eq!(all_ticks(&once), all_ticks(&other));
}

#[test]
fn space_around_centres_items_in_slots() {
    let mut t = Categorical::new(names(&["a", "b", "c", "d"])).space_around_ticker();
    t.layout(100);
    assert_eq!(
        all_ticks(&t),
        vec![
            (12, "a".to_string()),
            (37, "b".to_string()),
            (62, "c".to_string()),
            (87, "d".to_string())
        ]
    );
}

#[test]
fn space_between_spans_the_axis() {
    let mut t = SpaceBetweenTicker::new(Categorical::new(names(&["a", "b", "c"])));
    t.layout(100);
    let positions: Vec<i64> = all_ticks(&t).into_iter().map(|(p, _)| p).collect();
    assert_eq!(positions, vec![0, 50, 100]);
    let mut one = Categorical::new(names(&["only"])).space_between_ticker();
    one.layout(100);
    assert_eq!(all_ticks(&one), vec![(0, "only".to_string())]);
    let mut none = SpaceAroundTicker::new(Categorical::<String>::new(vec![]));
    none.layout(100);
    assert_eq!(none.len(), 0);
}

#[test]
fn reverse_flips_positions() {
    let mut t = Categorical::new(names(&["a", "b", "c"])).space_between_ticker().reverse();
    t.layout(100);
    let positions: Vec<i64> = all_ticks(&t).into_iter().map(|(p, _)| p).collect();
    assert_eq!(positions, vec![100, 50, 0]);
    assert_eq!(t.get(0).unwrap().label, "a");
}

#[test]
fn reverse_twice_gives_back_the_ticks() {
    let mut plain = Categorical::new(names(&["x", "y", "z", "w"])).space_around_ticker();
    plain.layout(333);
    let mut twice = ReverseTicker::new(ReverseTicker::new(
        Categorical::new(names(&["x", "y", "z", "w"])).space_around_ticker(),
    ));
    twice.layout(333);
    assert_eq!(all_ticks(&plain), all_ticks(&twice));
    let mut iv = IntervalTicker::new(Interval::new(5, 95)).reverse().reverse();
    iv.layout(640);
    let mut iv_plain = IntervalTicker::new(Interval::new(5, 95));
    iv_plain.layout(640);
    assert_eq!(all_ticks(&iv), all_ticks(&iv_plain));
}

#[test]
fn numeric_sequence() {
    let n = Numeric::new(0, 10, 3);
    assert_eq!(n.len(), 3);
    assert_eq!(n.get(0), Some(0));
    assert_eq!(n.get(2), Some(6));
    assert_eq!(n.get(3), Some(9));
    assert_eq!(n.get(4), None);
    assert_eq!(n.max(), 9);
    assert_eq!(n.min(), 0);
    assert_eq!(n.step(), 3);
    assert_eq!(n.interval(), Interval::new(0, 10));
    assert_eq!(n.label(2), "6");
    let m = Numeric::from_interval_step(Interval::new(-12, 0), 5);
    assert_eq!(m.label(0), "-12");
    let mut it = m.iter();
    assert_eq!(it.next(), Some(-12));
    assert_eq!(it.next(), Some(-7));
    assert_eq!(it.next(), Some(-2));
    assert_eq!(it.next(), None);
    assert_eq!(it.next(), None);
}

#[test]
fn numeric_ticker_labels() {
    let mut t = Numeric::new(-20, 20, 10).space_between_ticker();
    t.layout(90);
    assert_eq!(
        all_ticks(&t),
        vec![(0, "-20".to_string()), (30, "-10".to_string()), (60, "0".to_string()), (90, "10".to_string())]
    );
}

#[test]
fn categorical_accessors() {
    let mut c = Categorical::new(vec!["a", "b"]);
    assert_eq!(c.categories(), &["a", "b"]);
    assert_eq!(c.len(), 2);
    assert_eq!(c.get(1), Some("b"));
    assert_eq!(c.get(2), None);
    c.set_categories(vec!["z"]);
    assert_eq!(c.categories(), &["z"]);
    assert_eq!(c.label(0), "z");
    let mut it = c.iter();
    assert_eq!(it.next(), Some("z"));
    assert_eq!(it.next(), None);
}

#[test]
fn interval_ticker_trims_trailing_zeros() {
    // [0, 10] on 6000: at most 100 ticks, so every 0.2
    let mut t = IntervalTicker::new(Interval::new(0, 10));
    t.layout(6000);
    assert_eq!(t.len(), 51);
    let labels: Vec<String> = (0..7).map(|i| t.get(i).unwrap().label).collect();
    assert_eq!(labels, names(&["0", "0.2", "0.4", "0.6", "0.8", "1", "1.2"]));
    assert_eq!(t.get(50).unwrap().label, "10");
    assert_eq!(t.get(50).unwrap().pos, 6000);
}

#[test]
fn interval_ticker_starts_at_first_multiple() {
    // [3, 47] on 300: at most 5 ticks, every 10 from 10
    let mut t = IntervalTicker::new(Interval::new(3, 47));
    t.layout(300);
    let ticks = all_ticks(&t);
    assert_eq!(
        ticks.iter().map(|(_, l)| l.clone()).collect::<Vec<_>>(),
        names(&["10", "20", "30", "40"])
    );
    // 10 sits 7/44 of the way along
    assert_eq!(ticks[0].0, 7 * 300 / 44);
}
