use farmap::{Date, TimeIterator};

fn date(y: i32, m: u32, d: u32) -> Date {
    Date::from_ymd_opt(y, m, d).unwrap()
}

#[test]
fn test_daily_no_end_date() {
    let mut iter = TimeIterator::new().build();
    let mut count = 0;
    while count < 100 && iter.next().is_some() {
        count += 1;
    }
    assert_eq!(count, 100);
}

#[test]
fn test_monthly_no_end_date() {
    let mut iter = TimeIterator::new()
        .with_start_date(date(2024, 1, 1))
        .with_monthly_cadence()
        .build();
    let mut count = 0;
    while count < 100 && iter.next().is_some() {
        count += 1;
    }
    assert_eq!(count, 100);
}

#[test]
fn test_monthly_with_defaults() {
    let mut iter = TimeIterator::new()
        .with_start_date(date(2024, 1, 15))
        .with_end_date(date(2025, 1, 15))
        .with_monthly_cadence()
        .build();
    let mut count = 0;
    while iter.next().is_some() {
        count += 1;
    }
    assert_eq!(count, 14);
}

#[test]
fn monthly_dates_are_firsts_of_months_then_the_end() {
    let mut iter = TimeIterator::new()
        .with_start_date(date(2024, 1, 31))
        .with_end_date(date(2024, 4, 10))
        .with_monthly_cadence()
        .with_date_of_month(5)
        .build();
    let mut dates = Vec::new();
    while let Some(d) = iter.next() {
        dates.push(d);
    }
    assert_eq!(
        dates,
        vec![date(2024, 1, 31), date(2024, 2, 1), date(2024, 3, 1), date(2024, 4, 1), date(2024, 4, 10)]
    );
}

#[test]
fn daily_iteration_covers_every_day_to_the_end() {
    let mut iter = TimeIterator::new()
        .with_start_date(date(2024, 2, 27))
        .with_end_date(date(2024, 3, 2))
        .build();
    let mut dates = Vec::new();
    while let Some(d) = iter.next() {
        dates.push(d);
    }
    assert_eq!(dates.len(), 5);
    assert_eq!(dates[2], date(2024, 2, 29));
    assert_eq!(dates[4], date(2024, 3, 2));
    assert!(iter.next().is_none());
}

#[test]
fn weekly_iteration_ends_at_the_end_date() {
    let mut iter = TimeIterator::new()
        .with_start_date(date(2024, 1, 1))
        .with_end_date(date(2024, 1, 20))
        .with_weekly_cadence()
        .build();
    let mut dates = Vec::new();
    while let Some(d) = iter.next() {
        dates.push(d);
    }
    assert_eq!(dates, vec![date(2024, 1, 1), date(2024, 1, 8), date(2024, 1, 15), date(2024, 1, 20)]);
}

#[test]
fn start_equal_to_end_gives_one_date() {
    let mut iter = TimeIterator::new()
        .with_start_date(date(2024, 6, 1))
        .with_end_date(date(2024, 6, 1))
        .build();
    assert_eq!(iter.next(), Some(date(2024, 6, 1)));
    assert_eq!(iter.next(), None);
}

#[test]
fn default_start_is_the_unix_epoch() {
    let mut iter = TimeIterator::new().build();
    assert_eq!(iter.next(), Some(date(1970, 1, 1)));
    assert_eq!(iter.next(), Some(date(1970, 1, 2)));
}

#[test]
fn calendar_days() {
    assert_eq!(date(1, 1, 1).days_from_ce(), 1);
    assert_eq!(date(1970, 1, 1).days_from_ce(), 719163);
    assert_eq!(date(2000, 3, 1).days_from_ce() - date(2000, 2, 28).days_from_ce(), 2);
    assert_eq!(date(1900, 3, 1).days_from_ce() - date(1900, 2, 28).days_from_ce(), 1);
    assert!(Date::from_ymd_opt(2023, 2, 29).is_none());
    assert!(Date::from_ymd_opt(2024, 13, 1).is_none());
    assert!(Date::from_ymd_opt(-262143, 1, 1).is_some());
    assert!(Date::from_ymd_opt(-262144, 12, 31).is_none());
    assert!(Date::from_ymd_opt(262142, 12, 31).is_some());
    assert!(Date::from_ymd_opt(262143, 1, 1).is_none());
    assert_eq!(date(-1, 12, 31).days_from_ce(), -366);
    assert_eq!(date(0, 12, 31).days_from_ce(), 0);
}

#[test]
fn monthly_steps_clamp_to_short_months() {
    let mut iter = TimeIterator::new()
        .with_start_date(date(2023, 12, 31))
        .with_end_date(date(2024, 3, 31))
        .with_monthly_cadence()
        .build();
    let mut dates = Vec::new();
    while let Some(d) = iter.next() {
        dates.push(d);
    }
    assert_eq!(
        dates,
        vec![date(2023, 12, 31), date(2024, 1, 1), date(2024, 2, 1), date(2024, 3, 1), date(2024, 3, 31)]
    );
}

#[test]
fn iteration_stops_at_the_last_date() {
    let mut iter = TimeIterator::new().with_start_date(Date::max()).build();
    assert_eq!(iter.next(), Some(Date::max()));
    assert_eq!(iter.next(), None);
    assert_eq!(iter.next(), None);
}

#[test]
fn line_dates_come_from_unix_timestamps() {
    let line = |timestamp: usize| {
        farmap::UnprocessedUserLine::new(1, 1, String::new(), String::new(), 1, timestamp)
    };
    assert_eq!(line(0).date(), Ok(date(1970, 1, 1)));
    assert_eq!(line(86_399).date(), Ok(date(1970, 1, 1)));
    assert_eq!(line(1_706_745_600).date(), Ok(date(2024, 2, 1)));
}

#[test]
fn a_weekly_run_ends_at_the_end_date_and_stays_done() {
    let start = date(2024, 3, 1);
    let end = date(2024, 3, 20);
    let mut iter = TimeIterator::new()
        .with_start_date(start)
        .with_end_date(end)
        .with_weekly_cadence()
        .build();
    let mut outs = Vec::new();
    let span = (end.days_from_ce() - start.days_from_ce()) as usize;
    for _ in 0..span + 3 {
        outs.push(iter.next());
    }
    assert_eq!(outs[0], Some(start));
    assert_eq!(outs[1], Some(date(2024, 3, 8)));
    assert_eq!(outs[2], Some(date(2024, 3, 15)));
    assert_eq!(outs[3], Some(end));
    assert!(outs[4..].iter().all(|o| o.is_none()));
}
