use std::collections::VecDeque;
use wind_loads::{Loads, Tag, Tagged, WindLoads, WindLoadsError};

fn ramp(n: usize, offset: f64) -> Vec<Vec<f64>> {
    (0..n)
        .map(|i| {
            let x = offset + i as f64;
            vec![x, -x, 2.0 * x, 0.5, 0.25, 0.125]
        })
        .collect()
}

fn seconds(n: usize) -> Vec<i64> {
    (0..n as i64).collect()
}

fn firsts(channel: &Option<Loads<f64>>) -> Vec<f64> {
    channel.clone().unwrap().io().iter().map(|s| s[0]).collect()
}

fn heads(stream: &Tagged<VecDeque<Vec<f64>>>) -> Vec<f64> {
    stream.data.iter().map(|s| s[0]).collect()
}

/// Truss, an empty slot, top-end and GIR, ten samples each, one per second.
fn corpus() -> WindLoads<f64> {
    WindLoads::new(
        vec![
            Some(Loads::OSSTruss6F(ramp(10, 100.0))),
            None,
            Some(Loads::OSSTopEnd6F(ramp(10, 200.0))),
            Some(Loads::OSSGIR6F(ramp(10, 300.0))),
        ],
        seconds(10),
    )
}

/// All eight channels, `n` samples each, one per second.
fn full(n: usize) -> WindLoads<f64> {
    WindLoads::new(
        vec![
            Some(Loads::OSSTopEnd6F(ramp(n, 1000.0))),
            Some(Loads::OSSTruss6F(ramp(n, 2000.0))),
            Some(Loads::OSSGIR6F(ramp(n, 3000.0))),
            Some(Loads::OSSCRING6F(ramp(n, 4000.0))),
            Some(Loads::OSSCellLcl6F(ramp(n, 5000.0))),
            Some(Loads::OSSM1Lcl6F(ramp(n, 6000.0))),
            Some(Loads::MCM2LclForce6F(ramp(n, 7000.0))),
            Some(Loads::OSSMirrorCovers6F(ramp(n, 8000.0))),
        ],
        seconds(n),
    )
}

#[test]
fn new_corpus_has_no_count_and_no_selection() {
    let w = corpus();
    assert_eq!(w.loads.len(), 4);
    assert_eq!(w.time, seconds(10));
    assert_eq!(w.n_sample, None);
    assert!(w.tagged_loads.is_empty());
}

#[test]
fn default_corpus_is_empty() {
    let w = WindLoads::<f64>::default();
    assert!(w.loads.is_empty());
    assert!(w.time.is_empty());
    assert_eq!(w.n_sample, None);
    assert!(w.tagged_loads.is_empty());
}

#[test]
fn range_windows_every_populated_channel_alike() {
    let w = corpus().range(3, 7);
    assert_eq!(firsts(&w.loads[0]), vec![103.0, 104.0, 105.0, 106.0]);
    assert!(w.loads[1].is_none());
    assert_eq!(firsts(&w.loads[2]), vec![203.0, 204.0, 205.0, 206.0]);
    assert_eq!(firsts(&w.loads[3]), vec![303.0, 304.0, 305.0, 306.0]);
}

#[test]
fn range_leaves_axis_count_and_selection() {
    let w = corpus().n_sample(4).unwrap().truss().unwrap().range(3, 7);
    assert_eq!(w.time, seconds(10));
    assert_eq!(w.n_sample, Some(4));
    assert_eq!(w.tagged_loads.len(), 1);
    assert_eq!(heads(&w.tagged_loads[0]), vec![100.0, 101.0, 102.0, 103.0]);
}

#[test]
fn range_starts_at_the_first_timestamp_that_reaches_the_bound() {
    let time = vec![0, 10, 20, 30, 40, 50];
    let w = WindLoads::new(vec![Some(Loads::OSSTruss6F(ramp(6, 0.0)))], time);
    // 15 is first reached by 20 at index 2, 45 by 50 at index 5
    let w = w.range(15, 45);
    assert_eq!(firsts(&w.loads[0]), vec![2.0, 3.0, 4.0]);
}

#[test]
fn range_bounds_that_are_timestamps_give_a_half_open_window() {
    let time = vec![0, 10, 20, 30, 40, 50];
    let w = WindLoads::new(vec![Some(Loads::OSSTruss6F(ramp(6, 0.0)))], time);
    let w = w.range(10, 40);
    assert_eq!(firsts(&w.loads[0]), vec![1.0, 2.0, 3.0]);
}

#[test]
fn range_takes_the_first_of_equal_timestamps() {
    let time = vec![0, 10, 10, 10, 20, 20];
    let w = WindLoads::new(vec![Some(Loads::OSSTruss6F(ramp(6, 0.0)))], time);
    let w = w.range(10, 20);
    assert_eq!(firsts(&w.loads[0]), vec![1.0, 2.0, 3.0]);
}

#[test]
fn range_runs_to_the_end_when_no_timestamp_reaches_the_upper_bound() {
    let w = corpus().range(6, 1000);
    assert_eq!(firsts(&w.loads[0]), vec![106.0, 107.0, 108.0, 109.0]);
}

#[test]
fn range_starts_at_zero_when_no_timestamp_reaches_the_lower_bound() {
    let w = corpus().range(1000, 2000);
    assert_eq!(w.loads[0].as_ref().unwrap().len(), 10);
    let w = corpus().range(1000, 4);
    assert_eq!(firsts(&w.loads[0]), vec![100.0, 101.0, 102.0, 103.0]);
}

#[test]
fn range_with_bounds_below_the_axis_is_empty() {
    let w = corpus().range(-5, -1);
    assert_eq!(w.loads[0].as_ref().unwrap().len(), 0);
    assert_eq!(w.loads[2].as_ref().unwrap().len(), 0);
}

#[test]
fn time_window_with_reversed_bounds_is_empty() {
    let w = corpus().range(7, 3);
    assert_eq!(w.loads[0].as_ref().unwrap().len(), 0);
    assert_eq!(w.loads[3].as_ref().unwrap().len(), 0);
}

#[test]
fn range_with_extreme_bounds_keeps_everything() {
    let w = corpus().range(i64::MIN, i64::MAX);
    assert_eq!(w.loads[0].clone().unwrap().io(), ramp(10, 100.0));
}

#[test]
fn range_on_an_axis_that_holds_the_largest_timestamp() {
    let time = vec![0, 1, i64::MAX];
    let w = WindLoads::new(vec![Some(Loads::OSSTruss6F(ramp(3, 0.0)))], time);
    let w = w.range(0, i64::MAX);
    assert_eq!(firsts(&w.loads[0]), vec![0.0, 1.0]);
}

#[test]
fn range_length_is_the_number_of_timestamps_in_the_window() {
    let time = seconds(10);
    for t_min in -2i64..13 {
        for t_max in -2i64..13 {
            let w = corpus().range(t_min, t_max);
            let lo = time.iter().position(|t| *t >= t_min).unwrap_or(0);
            let hi = time.iter().position(|t| *t >= t_max).unwrap_or(time.len());
            let expected = hi.saturating_sub(lo);
            for slot in [0usize, 2, 3] {
                assert_eq!(
                    w.loads[slot].as_ref().unwrap().len(),
                    expected,
                    "t_min = {}, t_max = {}",
                    t_min,
                    t_max
                );
            }
        }
    }
}

#[test]
fn range_length_on_given_bounds() {
    let len = |t_min: i64, t_max: i64| corpus().range(t_min, t_max).loads[0].as_ref().unwrap().len();
    assert_eq!(len(0, 10), 10);
    assert_eq!(len(0, 9), 9);
    assert_eq!(len(-2, 11), 10);
    assert_eq!(len(4, 5), 1);
    assert_eq!(len(9, 12), 1);
    assert_eq!(len(12, 3), 3);
    assert_eq!(len(5, 5), 0);
}

#[test]
fn range_twice_looks_both_times_at_the_whole_axis() {
    // the axis is kept, so the second window is cut at indices 2 and 4 again
    let w = corpus().range(2, 8).range(2, 4);
    assert_eq!(firsts(&w.loads[0]), vec![104.0, 105.0]);
}

#[test]
fn range_on_an_empty_corpus_is_empty() {
    let w = WindLoads::<f64>::default().range(0, 10);
    assert!(w.loads.is_empty());
    assert!(w.time.is_empty());
}

#[test]
fn decimate_thins_every_populated_channel_alike() {
    let w = corpus().decimate(4);
    assert_eq!(firsts(&w.loads[0]), vec![100.0, 104.0, 108.0]);
    assert!(w.loads[1].is_none());
    assert_eq!(firsts(&w.loads[2]), vec![200.0, 204.0, 208.0]);
    assert_eq!(firsts(&w.loads[3]), vec![300.0, 304.0, 308.0]);
    assert_eq!(w.time, seconds(10));
}

#[test]
fn decimate_by_one_changes_nothing() {
    let w = corpus().decimate(1);
    assert_eq!(w.loads[0].clone().unwrap().io(), ramp(10, 100.0));
    assert_eq!(w.loads[2].clone().unwrap().io(), ramp(10, 200.0));
    assert_eq!(w.loads[3].clone().unwrap().io(), ramp(10, 300.0));
}

#[test]
fn n_sample_of_zero_is_refused() {
    assert_eq!(corpus().n_sample(0).err(), Some(WindLoadsError::InvalidSampleCount));
    assert_eq!(
        WindLoads::<f64>::default().n_sample(0).err(),
        Some(WindLoadsError::InvalidSampleCount)
    );
}

#[test]
fn n_sample_beyond_the_channels_is_refused() {
    assert_eq!(corpus().n_sample(11).err(), Some(WindLoadsError::InvalidSampleCount));
    assert_eq!(corpus().n_sample(usize::MAX).err(), Some(WindLoadsError::InvalidSampleCount));
}

#[test]
fn n_sample_up_to_the_channels_is_recorded() {
    for n in 1..=10usize {
        let w = corpus().n_sample(n).unwrap();
        assert_eq!(w.n_sample, Some(n));
        assert_eq!(w.loads[0].clone().unwrap().io(), ramp(10, 100.0));
        assert_eq!(w.time, seconds(10));
    }
}

#[test]
fn n_sample_is_held_to_the_shortest_channel() {
    let ragged = || {
        WindLoads::new(
            vec![
                Some(Loads::OSSTruss6F(ramp(10, 0.0))),
                Some(Loads::OSSGIR6F(ramp(4, 0.0))),
                Some(Loads::OSSTopEnd6F(ramp(7, 0.0))),
            ],
            seconds(10),
        )
    };
    assert_eq!(ragged().n_sample(4).unwrap().n_sample, Some(4));
    assert_eq!(ragged().n_sample(5).err(), Some(WindLoadsError::InvalidSampleCount));
    assert_eq!(ragged().n_sample(10).err(), Some(WindLoadsError::InvalidSampleCount));
}

#[test]
fn n_sample_is_held_to_the_channels_as_transformed() {
    // 10 samples, windowed to 6, decimated by 2 to 3
    let w = corpus().range(2, 8).decimate(2);
    assert_eq!(w.loads[0].as_ref().unwrap().len(), 3);
    assert_eq!(
        corpus().range(2, 8).decimate(2).n_sample(4).err(),
        Some(WindLoadsError::InvalidSampleCount)
    );
    assert_eq!(corpus().range(2, 8).decimate(2).n_sample(3).unwrap().n_sample, Some(3));
}

#[test]
fn n_sample_without_channels_is_recorded() {
    let w = WindLoads::<f64>::new(vec![None, None], vec![0, 1]).n_sample(3).unwrap();
    assert_eq!(w.n_sample, Some(3));
}

#[test]
fn n_sample_cuts_each_selection_to_the_count() {
    let w = corpus().n_sample(3).unwrap().truss().unwrap().topend().unwrap().gir().unwrap();
    assert_eq!(w.tagged_loads.len(), 3);
    assert_eq!(heads(&w.tagged_loads[0]), vec![100.0, 101.0, 102.0]);
    assert_eq!(heads(&w.tagged_loads[1]), vec![200.0, 201.0, 202.0]);
    assert_eq!(heads(&w.tagged_loads[2]), vec![300.0, 301.0, 302.0]);
    // the corpus keeps all its samples
    assert_eq!(w.loads[0].as_ref().unwrap().len(), 10);
}

#[test]
fn selection_without_a_count_takes_the_whole_channel() {
    let w = corpus().gir().unwrap();
    assert_eq!(w.tagged_loads.len(), 1);
    assert_eq!(w.tagged_loads[0].tag, Tag::OSSGIR6F);
    assert_eq!(w.tagged_loads[0].data, VecDeque::from(ramp(10, 300.0)));
}

#[test]
fn selection_takes_the_channel_as_transformed() {
    let w = corpus().range(2, 8).decimate(2).truss().unwrap();
    assert_eq!(heads(&w.tagged_loads[0]), vec![102.0, 104.0, 106.0]);
}

#[test]
fn selection_beyond_a_channel_that_shrank_is_refused() {
    let w = corpus().n_sample(8).unwrap().decimate(2);
    assert_eq!(w.truss().err(), Some(WindLoadsError::InvalidSampleCount));
}

#[test]
fn each_selector_tags_its_own_channel() {
    let w = full(3);
    let w = w.truss().unwrap();
    let w = w.topend().unwrap();
    let w = w.cring().unwrap();
    let w = w.gir().unwrap();
    let w = w.m1_cell().unwrap();
    let w = w.m1_segments().unwrap();
    let w = w.m1_covers().unwrap();
    let w = w.m2_segments().unwrap();
    let tags: Vec<Tag> = w.tagged_loads.iter().map(|s| s.tag).collect();
    assert_eq!(
        tags,
        vec![
            Tag::OSSTruss6F,
            Tag::OSSTopEnd6F,
            Tag::OSSCRING6F,
            Tag::OSSGIR6F,
            Tag::OSSCellLcl6F,
            Tag::OSSM1Lcl6F,
            Tag::OSSMirrorCovers6F,
            Tag::MCM2LclForce6F,
        ]
    );
    let first: Vec<f64> = w.tagged_loads.iter().map(|s| s.data[0][0]).collect();
    assert_eq!(first, vec![2000.0, 1000.0, 4000.0, 3000.0, 5000.0, 6000.0, 8000.0, 7000.0]);
}

#[test]
fn asm_selectors_hand_channels_out_under_other_tags() {
    let w = full(3).m2_asm_topend().unwrap().m2_asm_reference_bodies().unwrap();
    assert_eq!(w.tagged_loads[0].tag, Tag::MCM2TE6F);
    assert_eq!(w.tagged_loads[0].data, VecDeque::from(ramp(3, 1000.0)));
    assert_eq!(w.tagged_loads[1].tag, Tag::MCM2RB6F);
    assert_eq!(w.tagged_loads[1].data, VecDeque::from(ramp(3, 7000.0)));
}

#[test]
fn m2_segments_into_looks_up_the_given_tag() {
    let w = full(3).m2_segments_into(Tag::MCM2LclForce6F).unwrap();
    assert_eq!(w.tagged_loads[0].tag, Tag::MCM2LclForce6F);
    assert_eq!(w.tagged_loads[0].data, VecDeque::from(ramp(3, 7000.0)));
    let w = full(3).m2_segments_into(Tag::OSSTruss6F).unwrap();
    assert_eq!(w.tagged_loads[0].tag, Tag::MCM2LclForce6F);
    assert_eq!(w.tagged_loads[0].data, VecDeque::from(ramp(3, 2000.0)));
}

#[test]
fn m2_segments_into_cuts_to_the_count_like_the_others() {
    let w = full(5).n_sample(2).unwrap().m2_segments_into(Tag::OSSGIR6F).unwrap();
    assert_eq!(w.tagged_loads[0].data, VecDeque::from(ramp(2, 3000.0)));
}

#[test]
fn m2_segments_into_finds_nothing_under_a_tag_that_names_no_channel() {
    assert_eq!(full(3).m2_segments_into(Tag::Other).err(), Some(WindLoadsError::Empty));
    assert_eq!(full(3).m2_segments_into(Tag::MCM2TE6F).err(), Some(WindLoadsError::Empty));
    assert_eq!(full(3).m2_segments_into(Tag::MCM2RB6F).err(), Some(WindLoadsError::Empty));
}

#[test]
fn selecting_an_absent_channel_fails() {
    assert_eq!(corpus().cring().err(), Some(WindLoadsError::Empty));
    assert_eq!(corpus().m1_cell().err(), Some(WindLoadsError::Empty));
    assert_eq!(corpus().m1_segments().err(), Some(WindLoadsError::Empty));
    assert_eq!(corpus().m1_covers().err(), Some(WindLoadsError::Empty));
    assert_eq!(corpus().m2_segments().err(), Some(WindLoadsError::Empty));
    assert_eq!(corpus().m2_asm_reference_bodies().err(), Some(WindLoadsError::Empty));
    assert_eq!(corpus().m2_segments_into(Tag::MCM2LclForce6F).err(), Some(WindLoadsError::Empty));
    let bare = || WindLoads::<f64>::new(vec![None, None], seconds(3));
    assert_eq!(bare().truss().err(), Some(WindLoadsError::Empty));
    assert_eq!(bare().topend().err(), Some(WindLoadsError::Empty));
    assert_eq!(bare().gir().err(), Some(WindLoadsError::Empty));
    assert_eq!(bare().m2_asm_topend().err(), Some(WindLoadsError::Empty));
    assert_eq!(WindLoads::<f64>::default().truss().err(), Some(WindLoadsError::Empty));
}

#[test]
fn selecting_an_absent_channel_fails_with_a_count_set() {
    let w = corpus().n_sample(2).unwrap();
    assert_eq!(w.cring().err(), Some(WindLoadsError::Empty));
}

#[test]
fn selecting_an_empty_channel_is_no_failure() {
    let w = WindLoads::new(vec![Some(Loads::OSSTruss6F(ramp(0, 0.0)))], vec![]);
    let w = w.truss().unwrap();
    assert_eq!(w.tagged_loads.len(), 1);
    assert!(w.tagged_loads[0].data.is_empty());
}

#[test]
fn selection_takes_the_first_of_two_channels_of_one_name() {
    let w = WindLoads::new(
        vec![
            None,
            Some(Loads::OSSTruss6F(ramp(2, 10.0))),
            Some(Loads::OSSTruss6F(ramp(2, 20.0))),
        ],
        seconds(2),
    );
    let w = w.truss().unwrap();
    assert_eq!(heads(&w.tagged_loads[0]), vec![10.0, 11.0]);
}

#[test]
fn a_channel_can_be_selected_twice() {
    let w = corpus().truss().unwrap().truss().unwrap();
    assert_eq!(w.tagged_loads.len(), 2);
    assert_eq!(w.tagged_loads[0].data, w.tagged_loads[1].data);
}

#[test]
fn select_all_selects_seven_channels_in_order() {
    let w = full(4).select_all().unwrap();
    let tags: Vec<Tag> = w.tagged_loads.iter().map(|s| s.tag).collect();
    assert_eq!(
        tags,
        vec![
            Tag::OSSTopEnd6F,
            Tag::MCM2LclForce6F,
            Tag::OSSTruss6F,
            Tag::OSSM1Lcl6F,
            Tag::OSSCellLcl6F,
            Tag::OSSGIR6F,
            Tag::OSSCRING6F,
        ]
    );
    let first: Vec<f64> = w.tagged_loads.iter().map(|s| s.data[0][0]).collect();
    assert_eq!(first, vec![1000.0, 7000.0, 2000.0, 6000.0, 5000.0, 3000.0, 4000.0]);
    assert!(w.tagged_loads.iter().all(|s| s.data.len() == 4));
}

#[test]
fn select_all_with_asm_selects_seven_channels_in_order() {
    let w = full(4).select_all_with_asm().unwrap();
    let tags: Vec<Tag> = w.tagged_loads.iter().map(|s| s.tag).collect();
    assert_eq!(
        tags,
        vec![
            Tag::MCM2TE6F,
            Tag::MCM2RB6F,
            Tag::OSSTruss6F,
            Tag::OSSM1Lcl6F,
            Tag::OSSCellLcl6F,
            Tag::OSSGIR6F,
            Tag::OSSCRING6F,
        ]
    );
    let first: Vec<f64> = w.tagged_loads.iter().map(|s| s.data[0][0]).collect();
    assert_eq!(first, vec![1000.0, 7000.0, 2000.0, 6000.0, 5000.0, 3000.0, 4000.0]);
}

#[test]
fn select_all_appends_to_what_was_selected() {
    let w = full(2).m1_covers().unwrap().select_all().unwrap();
    assert_eq!(w.tagged_loads.len(), 8);
    assert_eq!(w.tagged_loads[0].tag, Tag::OSSMirrorCovers6F);
    assert_eq!(w.tagged_loads[1].tag, Tag::OSSTopEnd6F);
}

#[test]
fn select_all_fails_when_one_channel_is_absent() {
    // the corpus holds truss, top-end and GIR only
    assert_eq!(corpus().select_all().err(), Some(WindLoadsError::Empty));
    assert_eq!(corpus().select_all_with_asm().err(), Some(WindLoadsError::Empty));
    let mut w = full(3);
    w.loads[3] = None;
    assert_eq!(w.select_all().err(), Some(WindLoadsError::Empty));
}

#[test]
fn select_all_ends_with_the_first_failure() {
    // top-end is long enough for the count, the M2 segments are absent, the
    // truss is too short: the absent channel comes first
    let w = WindLoads {
        loads: vec![
            Some(Loads::OSSTopEnd6F(ramp(5, 0.0))),
            Some(Loads::OSSTruss6F(ramp(2, 0.0))),
        ],
        time: seconds(5),
        n_sample: Some(4),
        tagged_loads: Vec::new(),
    };
    assert_eq!(w.select_all().err(), Some(WindLoadsError::Empty));
    // with the top-end too short for the count that failure comes first
    let w = WindLoads {
        loads: vec![Some(Loads::OSSTopEnd6F(ramp(3, 0.0)))],
        time: seconds(3),
        n_sample: Some(4),
        tagged_loads: Vec::new(),
    };
    assert_eq!(w.select_all().err(), Some(WindLoadsError::InvalidSampleCount));
}

#[test]
fn build_takes_the_count_that_was_set() {
    let source = corpus().n_sample(6).unwrap().truss().unwrap().build().unwrap();
    assert_eq!(source.n_sample, 6);
    assert_eq!(source.loads.len(), 1);
    assert_eq!(source.loads[0].tag, Tag::OSSTruss6F);
    assert_eq!(source.loads[0].data, VecDeque::from(ramp(6, 100.0)));
}

#[test]
fn build_takes_the_length_of_the_first_populated_channel() {
    let source = corpus().truss().unwrap().gir().unwrap().build().unwrap();
    assert_eq!(source.n_sample, 10);
    assert_eq!(source.loads.len(), 2);
    let w = WindLoads::new(
        vec![None, Some(Loads::OSSGIR6F(ramp(4, 0.0))), Some(Loads::OSSTruss6F(ramp(9, 0.0)))],
        seconds(9),
    );
    assert_eq!(w.build().unwrap().n_sample, 4);
}

#[test]
fn build_takes_the_length_at_the_time_of_building() {
    let source = corpus().truss().unwrap().range(2, 5).build().unwrap();
    assert_eq!(source.n_sample, 3);
    assert_eq!(source.loads[0].data.len(), 10);
}

#[test]
fn build_without_count_and_channels_fails() {
    assert_eq!(WindLoads::<f64>::default().build().err(), Some(WindLoadsError::Len));
    let w = WindLoads::<f64>::new(vec![None, None, None], seconds(3));
    assert_eq!(w.build().err(), Some(WindLoadsError::Len));
}

#[test]
fn build_with_a_count_needs_no_channel() {
    let w = WindLoads::<f64>::new(vec![None], seconds(3)).n_sample(2).unwrap();
    let source = w.build().unwrap();
    assert_eq!(source.n_sample, 2);
    assert!(source.loads.is_empty());
}

#[test]
fn build_without_selection_gives_a_source_without_channels() {
    let source = corpus().build().unwrap();
    assert_eq!(source.n_sample, 10);
    assert!(source.loads.is_empty());
}
