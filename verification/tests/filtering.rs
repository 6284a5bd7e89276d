use iteritor::buffer::{Buffer, ControlFlowBuffer};
use iteritor::filtered::{DefilteredIter, FilteredIter};
use iteritor::try_polyfill::Try;
use iteritor::IterFiltered;
use std::cell::Cell;

type Sample = Result<u32, &'static str>;

fn result_samples() -> std::vec::IntoIter<Sample> {
    vec![
        Ok(1),
        Ok(2),
        Ok(1),
        Err("boom"),
        Err("hi"),
        Ok(3),
        Ok(1),
        Err("zoop"),
        Ok(5),
    ]
    .into_iter()
}

fn pull_all<I, F>(iter: &mut DefilteredIter<I, Buffer<I::Item>, F>) -> Vec<I::Item>
where
    I: Iterator,
    I::Item: Try,
    F: Fn(&mut FilteredIter<I, Buffer<I::Item>>) -> Option<<I::Item as Try>::Output>,
{
    let mut all = Vec::new();
    while let Some(next) = iter.next() {
        all.push(next);
    }
    all
}

fn pop_all<T>(buf: &mut Buffer<T>) -> Vec<T> {
    let mut all = Vec::new();
    while let Some(next) = buf.pop() {
        all.push(next);
    }
    all
}

#[test]
fn result_unwrapped_gives_all_ok_items() {
    let mut buf = Buffer::default();
    let mut samples = result_samples();

    assert_eq!(buf.next_unwrapped(&mut samples), Some(1));
    assert_eq!(buf.next_unwrapped(&mut samples), Some(2));
    assert_eq!(buf.next_unwrapped(&mut samples), Some(1));
    assert_eq!(buf.next_unwrapped(&mut samples), Some(3));
    assert_eq!(buf.next_unwrapped(&mut samples), Some(1));
    assert_eq!(buf.next_unwrapped(&mut samples), Some(5));
    assert_eq!(buf.next_unwrapped(&mut samples), None);
}

#[test]
fn result_wrapped_gives_all_items() {
    let mut buf = Buffer::default();
    let mut samples = result_samples();
    let filtered = |samples: &mut std::vec::IntoIter<Sample>, buf: &mut Buffer<Sample>| {
        buf.next_unwrapped(samples)
    };

    assert_eq!(buf.next_wrapped(&mut samples, filtered), Some(Ok(1)));
    assert_eq!(buf.next_wrapped(&mut samples, filtered), Some(Ok(2)));
    assert_eq!(buf.next_wrapped(&mut samples, filtered), Some(Ok(1)));
    assert_eq!(buf.next_wrapped(&mut samples, filtered), Some(Err("boom")));
    assert_eq!(buf.next_wrapped(&mut samples, filtered), Some(Err("hi")));
    assert_eq!(buf.next_wrapped(&mut samples, filtered), Some(Ok(3)));
    assert_eq!(buf.next_wrapped(&mut samples, filtered), Some(Ok(1)));
    assert_eq!(buf.next_wrapped(&mut samples, filtered), Some(Err("zoop")));
    assert_eq!(buf.next_wrapped(&mut samples, filtered), Some(Ok(5)));
    assert_eq!(buf.next_wrapped(&mut samples, filtered), None);
}

#[test]
fn recombining_iterator_gives_all_items() {
    let buf = Buffer::default();
    let samples = result_samples();
    let filtered = FilteredIter::new(samples, buf);
    let mut wrapped = DefilteredIter::new(
        filtered,
        |stream: &mut FilteredIter<std::vec::IntoIter<Sample>, Buffer<Sample>>| stream.next(),
        Some(9),
        Some(9),
    );

    assert_eq!(wrapped.next(), Some(Ok(1)));
    assert_eq!(wrapped.next(), Some(Ok(2)));
    assert_eq!(wrapped.next(), Some(Ok(1)));
    assert_eq!(wrapped.next(), Some(Err("boom")));
    assert_eq!(wrapped.next(), Some(Err("hi")));
    assert_eq!(wrapped.next(), Some(Ok(3)));
    assert_eq!(wrapped.next(), Some(Ok(1)));
    assert_eq!(wrapped.next(), Some(Err("zoop")));
    assert_eq!(wrapped.next(), Some(Ok(5)));
    assert_eq!(wrapped.next(), None);
}

#[test]
fn filtered() {
    let mut output = result_samples().with_filtered(
        |i| loop {
            match i.next() {
                Some(n) if n > 2 => break Some(n),
                Some(_) => {}
                None => break None,
            }
        },
        Some(9),
    );

    assert_eq!(output.next(), Some(Err("boom")));
    assert_eq!(output.next(), Some(Err("hi")));
    assert_eq!(output.next(), Some(Ok(3)));
    assert_eq!(output.next(), Some(Err("zoop")));
    assert_eq!(output.next(), Some(Ok(5)));
    assert_eq!(output.next(), None);
}

#[test]
fn filtering_iterator_extracts_the_normal_values_in_order() {
    let mut filtered = FilteredIter::new(result_samples(), Buffer::default());
    let mut outputs = Vec::new();
    while let Some(n) = filtered.next() {
        outputs.push(n);
    }
    assert_eq!(outputs, vec![1, 2, 1, 3, 1, 5]);
    let (mut source, mut buffer) = filtered.into_parts();
    assert_eq!(source.next(), None);
    assert_eq!(
        pop_all(&mut buffer),
        vec![Err("boom"), Err("hi"), Err("zoop")]
    );
}

#[test]
fn into_parts_gives_back_what_was_not_pulled() {
    let mut filtered = FilteredIter::new(result_samples(), Buffer::default());
    assert_eq!(filtered.next(), Some(1));
    assert_eq!(filtered.next(), Some(2));
    assert_eq!(filtered.next(), Some(1));
    assert_eq!(filtered.next(), Some(3));
    let (source, mut buffer) = filtered.into_parts();
    assert_eq!(
        source.collect::<Vec<Sample>>(),
        vec![Ok(1), Err("zoop"), Ok(5)]
    );
    assert_eq!(pop_all(&mut buffer), vec![Err("boom"), Err("hi")]);
}

#[test]
fn identity_round_trip_reproduces_the_source() {
    let source: Vec<Sample> = result_samples().collect();
    let mut output = result_samples().with_filtered(|i| i.next(), Some(9));
    assert_eq!(pull_all(&mut output), source);
    assert_eq!(output.next(), None);
}

#[test]
fn identity_round_trip_of_an_empty_source_is_empty() {
    let source: Vec<Sample> = Vec::new();
    let mut output = source.into_iter().with_filtered(|i| i.next(), Some(0));
    assert_eq!(output.next(), None);
    assert_eq!(output.next(), None);
}

#[test]
fn identity_round_trip_of_leading_divergent_values() {
    let source: Vec<Sample> = vec![Err("a"), Err("b"), Ok(1), Err("c"), Ok(2)];
    let mut output = source
        .clone()
        .into_iter()
        .with_filtered(|i| i.next(), Some(5));
    assert_eq!(pull_all(&mut output), source);
}

#[test]
fn trailing_divergent_values_wait_in_the_buffer_at_exhaustion() {
    let source: Vec<Sample> = vec![Ok(1), Err("late"), Err("later")];
    let mut output = source.into_iter().with_filtered(|i| i.next(), Some(3));
    assert_eq!(output.next(), Some(Ok(1)));
    assert_eq!(output.next(), None);
    assert_eq!(output.next(), Some(Err("late")));
    assert_eq!(output.next(), Some(Err("later")));
    assert_eq!(output.next(), None);
    assert_eq!(output.next(), None);
}

#[test]
fn recombination_matches_a_filter_map_over_the_source() {
    let with: Vec<Sample> = {
        let mut output = result_samples().with_filtered(
            |filtered| loop {
                match filtered.next().map(|n| n * 2) {
                    Some(n) if n > 3 => break Some(n / 2),
                    Some(_) => {}
                    None => break None,
                }
            },
            Some(9),
        );
        pull_all(&mut output)
    };
    let without: Vec<Sample> = result_samples()
        .filter_map(|i| match i {
            Ok(n) => {
                if n * 2 > 3 {
                    Some(Ok(n))
                } else {
                    None
                }
            }
            Err(err) => Some(Err(err)),
        })
        .collect();
    assert_eq!(with, without);
    assert_eq!(
        with,
        vec![Ok(2), Err("boom"), Err("hi"), Ok(3), Err("zoop"), Ok(5)]
    );
}

#[test]
fn mapped_outputs_come_back_wrapped() {
    let mut output = result_samples().with_filtered(|i| i.next().map(|n| n + 10), Some(9));
    assert_eq!(
        pull_all(&mut output),
        vec![
            Ok(11),
            Ok(12),
            Ok(11),
            Err("boom"),
            Err("hi"),
            Ok(13),
            Ok(11),
            Err("zoop"),
            Ok(15)
        ]
    );
}

#[test]
fn a_transformation_with_a_state_of_its_own_repeats_outputs() {
    let held: Cell<Option<u32>> = Cell::new(None);
    let mut output = result_samples().with_filtered(
        |i| match held.take() {
            Some(again) => Some(again),
            None => {
                let first = i.next()?;
                held.set(Some(first));
                Some(first)
            }
        },
        Some(18),
    );
    assert_eq!(output.size_hint(), (0, Some(18)));
    assert_eq!(
        pull_all(&mut output),
        vec![
            Ok(1),
            Ok(1),
            Ok(2),
            Ok(2),
            Ok(1),
            Ok(1),
            Err("boom"),
            Err("hi"),
            Ok(3),
            Ok(3),
            Ok(1),
            Ok(1),
            Err("zoop"),
            Ok(5),
            Ok(5)
        ]
    );
}

#[test]
fn a_transformation_that_stops_early_pulls_no_further() {
    let left = Cell::new(4u32);
    let mut source = result_samples();
    let mut output = source.by_ref().with_filtered(
        |i| {
            if left.get() == 0 {
                None
            } else {
                left.set(left.get() - 1);
                i.next()
            }
        },
        Some(4),
    );
    assert_eq!(
        pull_all(&mut output),
        vec![Ok(1), Ok(2), Ok(1), Err("boom"), Err("hi"), Ok(3)]
    );
    assert_eq!(output.next(), None);
    assert_eq!(
        source.collect::<Vec<Sample>>(),
        vec![Ok(1), Err("zoop"), Ok(5)]
    );
}

#[test]
fn options_are_recombined_too() {
    let source: Vec<Option<u8>> = vec![Some(1), None, Some(4), None, None, Some(6)];
    let mut output = source.into_iter().with_filtered(
        |i| loop {
            match i.next() {
                Some(n) if n % 2 == 0 => break Some(n),
                Some(_) => {}
                None => break None,
            }
        },
        None,
    );
    assert_eq!(output.next(), Some(None));
    assert_eq!(output.next(), Some(Some(4)));
    assert_eq!(output.next(), Some(None));
    assert_eq!(output.next(), Some(None));
    assert_eq!(output.next(), Some(Some(6)));
    assert_eq!(output.next(), None);
}

#[test]
fn with_filtered_buf_uses_the_buffer_it_is_given() {
    let mut buf: Buffer<Sample> = Buffer::default();
    buf.push(Err("before"));
    let source: Vec<Sample> = vec![Ok(1), Err("x"), Ok(2)];
    let mut output = source
        .into_iter()
        .with_filtered_buf(buf, |i| i.next(), Some(3));
    assert_eq!(output.next(), Some(Err("before")));
    assert_eq!(output.next(), Some(Ok(1)));
    assert_eq!(output.next(), Some(Err("x")));
    assert_eq!(output.next(), Some(Ok(2)));
    assert_eq!(output.next(), None);
}

#[test]
fn with_filtered_pulls_nothing_before_it_is_asked() {
    let mut source = result_samples();
    {
        let output = source.by_ref().with_filtered(|i| i.next(), Some(9));
        assert_eq!(output.size_hint(), (0, Some(9)));
    }
    assert_eq!(source.len(), 9);
    {
        let mut output = source.by_ref().with_filtered(|i| i.next(), Some(9));
        assert_eq!(output.next(), Some(Ok(1)));
    }
    assert_eq!(source.len(), 8);
}

#[test]
fn size_hint_of_the_filtering_iterator_is_the_sources_upper_bound() {
    let mut filtered = FilteredIter::new(result_samples(), Buffer::default());
    assert_eq!(filtered.size_hint(), (0, Some(9)));
    assert_eq!(filtered.next(), Some(1));
    assert_eq!(filtered.size_hint(), (0, Some(8)));
    assert_eq!(filtered.next(), Some(2));
    assert_eq!(filtered.next(), Some(1));
    assert_eq!(filtered.next(), Some(3));
    assert_eq!(filtered.size_hint(), (0, Some(3)));

    let endless = FilteredIter::new(
        std::iter::repeat(Ok::<u32, &'static str>(1)),
        Buffer::default(),
    );
    assert_eq!(endless.size_hint(), (0, None));
}

#[test]
fn size_hint_of_the_recombining_iterator_is_the_larger_bound() {
    let mut output = result_samples().with_filtered(|i| i.next(), Some(4));
    assert_eq!(output.size_hint(), (0, Some(9)));
    assert_eq!(output.next(), Some(Ok(1)));
    assert_eq!(output.size_hint(), (0, Some(9)));

    let grown = result_samples().with_filtered(|i| i.next(), Some(18));
    assert_eq!(grown.size_hint(), (0, Some(18)));

    let built = DefilteredIter::new(
        FilteredIter::new(result_samples(), Buffer::default()),
        |stream: &mut FilteredIter<std::vec::IntoIter<Sample>, Buffer<Sample>>| stream.next(),
        Some(7),
        Some(4),
    );
    assert_eq!(built.size_hint(), (0, Some(7)));
}

#[test]
fn size_hint_of_the_recombining_iterator_without_a_bound_is_unbounded() {
    let no_transformed_bound = result_samples().with_filtered(|i| i.next(), None);
    assert_eq!(no_transformed_bound.size_hint(), (0, None));

    let no_source_bound =
        std::iter::repeat(Ok::<u32, &'static str>(1)).with_filtered(|i| i.next(), Some(9));
    assert_eq!(no_source_bound.size_hint(), (0, None));

    let neither = std::iter::repeat(Ok::<u32, &'static str>(1)).with_filtered(|i| i.next(), None);
    assert_eq!(neither.size_hint(), (0, None));
}
