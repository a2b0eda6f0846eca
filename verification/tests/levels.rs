use orderbook::rank::end_of_ranking;
use orderbook::rank::rank;
use orderbook::Dec;
use orderbook::Exchange;
use orderbook::Level;
use orderbook::Order;
use orderbook::ToLevel;
use orderbook::ToLevels;
use rust_decimal::Decimal;
use std::str::FromStr;

fn dec(text: &str) -> Dec {
    let d = Decimal::from_str(text).unwrap();
    Dec::new(d.mantissa(), d.scale()).unwrap()
}

fn level(price: &str, amount: &str, exchange: Exchange) -> Level {
    Level::new(dec(price), dec(amount), exchange)
}

#[test]
fn exchange_names() {
    assert_eq!(Exchange::Bitstamp.to_string(), "bitstamp");
    assert_eq!(Exchange::Binance.to_string(), "binance");
}

#[test]
fn exchange_ranks() {
    assert_eq!(Exchange::Bitstamp.rank(), 0);
    assert_eq!(Exchange::Binance.rank(), 1);
}

#[test]
fn level_new_keeps_its_parts() {
    let l = Level::new(dec("0.07358322"), dec("0.46500000"), Exchange::Bitstamp);
    assert_eq!(l.price, dec("0.07358322"));
    assert_eq!(l.amount, dec("0.46500000"));
    assert_eq!(l.exchange, Exchange::Bitstamp);
    assert_eq!(
        l,
        Level { price: dec("0.07358322"), amount: dec("0.46500000"), exchange: Exchange::Bitstamp }
    );
}

#[test]
fn levels_rank_by_price_first() {
    let low = level("9.5", "100", Exchange::Binance);
    let high = level("10", "1", Exchange::Bitstamp);
    assert_eq!(low.compare(&high), Order::Less);
    assert_eq!(high.compare(&low), Order::Greater);
}

#[test]
fn levels_of_one_price_rank_by_amount() {
    let small = level("10", "1", Exchange::Binance);
    let large = level("10.0", "1.5", Exchange::Bitstamp);
    assert_eq!(small.compare(&large), Order::Less);
    assert_eq!(large.compare(&small), Order::Greater);
}

#[test]
fn levels_of_one_price_and_amount_rank_by_venue() {
    let bitstamp = level("10", "1", Exchange::Bitstamp);
    let binance = level("10", "1", Exchange::Binance);
    assert_eq!(bitstamp.compare(&binance), Order::Less);
    assert_eq!(binance.compare(&bitstamp), Order::Greater);
}

#[test]
fn levels_that_tie_in_value_rank_by_scale() {
    let plain = level("10", "1", Exchange::Bitstamp);
    let padded_price = level("10.0", "1", Exchange::Bitstamp);
    let padded_amount = level("10", "1.0", Exchange::Bitstamp);
    assert_eq!(plain.compare(&padded_price), Order::Less);
    assert_eq!(plain.compare(&padded_amount), Order::Less);
    assert_eq!(padded_amount.compare(&padded_price), Order::Less);
    assert_eq!(padded_price.compare(&padded_amount), Order::Greater);
}

#[test]
fn only_a_level_itself_is_equal_to_it() {
    let l = level("10.50", "2", Exchange::Binance);
    assert_eq!(l.compare(&l), Order::Equal);
    assert_eq!(l.compare(&level("10.50", "2", Exchange::Binance)), Order::Equal);
    assert_ne!(l.compare(&level("10.5", "2", Exchange::Binance)), Order::Equal);
}

#[test]
fn rank_sorts_and_keeps_duplicates() {
    let input = vec![
        level("3", "1", Exchange::Bitstamp),
        level("1", "1", Exchange::Binance),
        level("2", "1", Exchange::Bitstamp),
        level("1", "1", Exchange::Binance),
        level("2.5", "1", Exchange::Bitstamp),
        level("1", "1", Exchange::Bitstamp),
        level("0.9", "7", Exchange::Binance),
    ];
    let ranked = rank(&input);
    assert_eq!(
        ranked,
        vec![
            level("0.9", "7", Exchange::Binance),
            level("1", "1", Exchange::Bitstamp),
            level("1", "1", Exchange::Binance),
            level("1", "1", Exchange::Binance),
            level("2", "1", Exchange::Bitstamp),
            level("2.5", "1", Exchange::Bitstamp),
            level("3", "1", Exchange::Bitstamp),
        ]
    );
}

#[test]
fn rank_of_few_levels() {
    assert_eq!(rank(&vec![]), vec![]);
    let one = vec![level("1", "1", Exchange::Binance)];
    assert_eq!(rank(&one), one);
}

#[test]
fn rank_does_not_depend_on_the_order_of_arrival() {
    let a = level("5", "1", Exchange::Bitstamp);
    let b = level("5.0", "1", Exchange::Bitstamp);
    let c = level("5", "1", Exchange::Binance);
    let d = level("4", "3", Exchange::Binance);
    let expected = vec![d, a, b, c];
    assert_eq!(rank(&vec![a, b, c, d]), expected);
    assert_eq!(rank(&vec![d, c, b, a]), expected);
    assert_eq!(rank(&vec![c, a, d, b]), expected);
}

#[test]
fn a_level_is_its_own_level() {
    let l = level("10", "1", Exchange::Binance);
    assert_eq!(l.to_level(), l);
}

#[test]
fn to_levels_keeps_the_first_of_the_records() {
    let records = vec![
        level("3", "1", Exchange::Bitstamp),
        level("1", "1", Exchange::Bitstamp),
        level("2", "1", Exchange::Bitstamp),
    ];
    assert_eq!(records.to_levels(2), records[..2].to_vec());
    assert_eq!(records.to_levels(3), records);
    assert_eq!(records.to_levels(10), records);
    assert_eq!(records.to_levels(0), vec![]);
    let none: Vec<Level> = vec![];
    assert_eq!(none.to_levels(10), vec![]);
}

#[test]
fn end_of_ranking_finds_last_and_first() {
    let first = vec![
        level("3", "1", Exchange::Bitstamp),
        level("1", "1", Exchange::Bitstamp),
        level("2", "1", Exchange::Bitstamp),
    ];
    let second = vec![level("3", "1", Exchange::Binance), level("1", "0.5", Exchange::Binance)];
    let ranked = rank(&[first.clone(), second.clone()].concat());
    assert_eq!(end_of_ranking(&first, &second, true), Some(level("3", "1", Exchange::Binance)));
    assert_eq!(end_of_ranking(&first, &second, false), Some(level("1", "0.5", Exchange::Binance)));
    assert_eq!(end_of_ranking(&first, &second, true), ranked.last().copied());
    assert_eq!(end_of_ranking(&first, &second, false), ranked.first().copied());
    assert_eq!(end_of_ranking(&second, &first, true), ranked.last().copied());
    assert_eq!(end_of_ranking(&vec![], &vec![], true), None);
    assert_eq!(end_of_ranking(&vec![], &vec![], false), None);
    assert_eq!(end_of_ranking(&vec![], &second, false), Some(second[1]));
    assert_eq!(end_of_ranking(&first, &vec![], true), Some(first[0]));
}
