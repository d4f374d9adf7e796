use physics_step::pipeline::substep::SubstepBudget;

fn budget(remaining_time: u64, remaining_substeps: usize) -> SubstepBudget {
    SubstepBudget::new(remaining_time, remaining_substeps)
}

#[test]
fn budget_starts_with_the_whole_step() {
    let b = SubstepBudget::new(16_667, 4);
    assert_eq!(b.remaining_time, 16_667);
    assert_eq!(b.remaining_substeps, 4);
}

#[test]
fn impact_is_looked_for_only_when_the_step_is_cut() {
    assert!(budget(100, 2).needs_impact(true));
    assert!(!budget(100, 1).needs_impact(true));
    assert!(!budget(100, 0).needs_impact(true));
    assert!(!budget(100, 8).needs_impact(false));
}

#[test]
fn early_impact_gives_an_even_share() {
    let mut b = budget(1000, 4);
    // 100 < 1000 / 4.
    assert_eq!(b.plan(true, Some(100), 10), 250);
    assert_eq!(b, budget(750, 3));
    assert!(!b.is_exhausted(true));
}

#[test]
fn late_impact_gives_a_slice_past_it() {
    let mut b = budget(1000, 4);
    // 600 + (1000 - 600) / 4.
    assert_eq!(b.plan(true, Some(600), 10), 700);
    assert_eq!(b, budget(300, 3));
}

#[test]
fn impact_at_the_even_share_counts_as_late() {
    let mut b = budget(1000, 4);
    // 250 is not less than 1000 / 4: 250 + 750 / 4.
    assert_eq!(b.plan(true, Some(250), 0), 437);
    assert_eq!(b, budget(563, 3));
}

#[test]
fn short_remainder_is_folded_into_the_substep() {
    let mut b = budget(1000, 4);
    // 960 + 40 / 4 = 970 leaves 30, which is less than 50.
    assert_eq!(b.plan(true, Some(960), 50), 1000);
    assert_eq!(b, budget(0, 1));
    assert!(b.is_exhausted(true));
}

#[test]
fn remainder_of_the_least_length_stands_alone() {
    let mut b = budget(1000, 4);
    assert_eq!(b.plan(true, Some(960), 30), 970);
    assert_eq!(b, budget(30, 3));
    assert!(!b.is_exhausted(true));
}

#[test]
fn no_impact_takes_the_rest_in_one_piece() {
    let mut b = budget(1000, 4);
    assert_eq!(b.plan(true, None, 10), 1000);
    assert_eq!(b, budget(0, 1));
    assert!(b.is_exhausted(true));
}

#[test]
fn impact_beyond_the_step_counts_as_one_at_its_end() {
    let mut b = budget(1000, 4);
    assert_eq!(b.plan(true, Some(5000), 0), 1000);
    assert_eq!(b.remaining_time, 0);
    assert!(b.is_exhausted(true));
}

#[test]
fn last_substep_takes_the_rest() {
    let mut b = budget(300, 1);
    assert_eq!(b.plan(true, Some(10), 0), 300);
    assert_eq!(b, budget(0, 1));
}

#[test]
fn without_ccd_the_step_is_one_substep() {
    let mut b = budget(1000, 8);
    assert_eq!(b.plan(false, Some(10), 0), 1000);
    assert_eq!(b, budget(0, 1));
    assert!(b.is_exhausted(false));
}

#[test]
fn substeps_conserve_time_whatever_the_impacts() {
    for max in 0..6usize {
        for seed in 0..50u64 {
            let total = 10_000 + seed * 37;
            let mut b = budget(total, max);
            let mut sum = 0u64;
            let mut count = 0usize;
            loop {
                let toi = if b.needs_impact(true) {
                    match (seed + count as u64) % 3 {
                        0 => None,
                        1 => Some((seed * 131 + count as u64 * 977) % (b.remaining_time + 1)),
                        _ => Some(seed % 7),
                    }
                } else {
                    None
                };
                sum += b.plan(true, toi, 100);
                count += 1;
                if b.is_exhausted(true) {
                    break;
                }
            }
            assert_eq!(sum, total);
            assert!(count >= 1 && count <= max.max(1));
        }
    }
}
