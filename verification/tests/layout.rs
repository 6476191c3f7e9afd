//! Page layouts: worked pages, each rule, and the laws on concrete pages.

use kzn_recsys::layout::{
    solve_tray_layout, solve_tray_layout_with_constraints, ConstraintRule, Format, Tray,
    TrayOption,
};

fn option(format: Format, height: usize, utility: f64, item_count: usize) -> TrayOption<f64> {
    TrayOption {
        format,
        height,
        utility,
        item_count,
    }
}

fn tray(id: usize, carousel: f64, banner: f64) -> Tray<f64> {
    Tray {
        id,
        options: vec![
            option(Format::Hidden, 0, 0.0, 0),
            option(Format::Carousel, 2, carousel, 5),
            option(Format::Banner, 4, banner, 1),
        ],
    }
}

#[test]
fn test_solve_tray_layout_basic() {
    let trays = vec![tray(0, 1.5, 3.0), tray(1, 2.0, 4.5)];
    let (val, formats) = solve_tray_layout(&trays, 8, f64::NEG_INFINITY);
    assert_eq!(val, 6.0);
    assert_eq!(formats, vec![Format::Carousel, Format::Banner]);

    let (val, formats) = solve_tray_layout(&trays, 3, f64::NEG_INFINITY);
    assert_eq!(val, 2.0);
    assert_eq!(formats, vec![Format::Hidden, Format::Carousel]);
}

#[test]
fn test_solve_tray_layout_with_disallowed_slot() {
    let trays = vec![tray(0, 1.5, 3.0), tray(1, 2.0, 4.5)];
    let constraints = vec![ConstraintRule::DisallowedAtSlot {
        format: Format::Banner,
        slot_idx: 1,
    }];
    let (val, formats) =
        solve_tray_layout_with_constraints(&trays, 8, &constraints, f64::NEG_INFINITY);
    assert_eq!(val, 5.0);
    assert_eq!(formats, vec![Format::Banner, Format::Carousel]);
}

#[test]
fn test_solve_tray_layout_with_max_occurrences() {
    let trays = vec![tray(0, 1.0, 3.0), tray(1, 2.0, 4.0)];
    let constraints = vec![ConstraintRule::MaxOccurrences {
        format: Format::Banner,
        limit: 0,
    }];
    let (val, formats) =
        solve_tray_layout_with_constraints(&trays, 8, &constraints, f64::NEG_INFINITY);
    assert_eq!(val, 3.0);
    assert_eq!(formats, vec![Format::Carousel, Format::Carousel]);
}

#[test]
fn no_consecutive_rule_is_kept() {
    let trays = vec![tray(0, 1.0, 5.0), tray(1, 1.0, 5.0), tray(2, 1.0, 5.0)];
    let rules = vec![ConstraintRule::NoConsecutive(Format::Banner)];
    let (val, formats) = solve_tray_layout_with_constraints(&trays, 100, &rules, f64::NEG_INFINITY);
    assert_eq!(
        formats,
        vec![Format::Banner, Format::Carousel, Format::Banner]
    );
    assert_eq!(val, 11.0);
    let (free, all) = solve_tray_layout_with_constraints(&trays, 100, &[], f64::NEG_INFINITY);
    assert_eq!(free, 15.0);
    assert_eq!(all, vec![Format::Banner, Format::Banner, Format::Banner]);
}

#[test]
fn page_wide_limit_counts_occurrences() {
    let trays = vec![tray(0, 1.0, 5.0), tray(1, 1.0, 4.0), tray(2, 1.0, 3.0)];
    let rules = vec![ConstraintRule::MaxOccurrences {
        format: Format::Banner,
        limit: 1,
    }];
    let (val, formats) = solve_tray_layout_with_constraints(&trays, 100, &rules, f64::NEG_INFINITY);
    assert_eq!(val, 7.0);
    assert_eq!(
        formats,
        vec![Format::Banner, Format::Carousel, Format::Carousel]
    );
}

#[test]
fn height_budget_binds() {
    let trays = vec![tray(0, 1.5, 3.0), tray(1, 2.0, 4.5)];
    let (val, formats) = solve_tray_layout(&trays, 4, f64::NEG_INFINITY);
    assert_eq!(val, 4.5);
    assert_eq!(formats, vec![Format::Hidden, Format::Banner]);
    let (val, formats) = solve_tray_layout(&trays, 0, f64::NEG_INFINITY);
    assert_eq!(val, 0.0);
    assert_eq!(formats, vec![Format::Hidden, Format::Hidden]);
}

#[test]
fn an_empty_page_has_no_utility() {
    let trays: Vec<Tray<f64>> = Vec::new();
    let (val, formats) = solve_tray_layout(&trays, 8, f64::NEG_INFINITY);
    assert_eq!(val, 0.0);
    assert!(formats.is_empty());
}

#[test]
fn formats_have_numbers() {
    for n in 0..4 {
        assert_eq!(Format::from_usize(n).to_usize(), n);
    }
    assert_eq!(Format::from_usize(17), Format::Hidden);
}

/// The best page over all choices of options, by trying every one of them.
fn best_by_trying(trays: &[Tray<f64>], max_height: usize) -> f64 {
    let mut best = f64::NEG_INFINITY;
    let mut pages: Vec<(usize, f64, Option<Format>)> = vec![(0, 0.0, None)];
    for tray in trays {
        let mut longer = Vec::new();
        for (height, utility, last) in &pages {
            for option in &tray.options {
                let banners = *last == Some(Format::Banner) && option.format == Format::Banner;
                if height + option.height <= max_height && !banners {
                    longer.push((
                        height + option.height,
                        utility + option.utility,
                        Some(option.format),
                    ));
                }
            }
        }
        pages = longer;
    }
    for (_, utility, _) in pages {
        if utility > best {
            best = utility;
        }
    }
    best
}

#[test]
fn solution_is_the_best_page() {
    let trays = vec![
        tray(0, 1.25, 2.0),
        tray(1, 0.5, 4.5),
        tray(2, 2.0, 2.5),
        tray(3, 1.0, 7.0),
    ];
    for max_height in 0..16 {
        let (val, formats) = solve_tray_layout(&trays, max_height, f64::NEG_INFINITY);
        assert_eq!(val, best_by_trying(&trays, max_height));
        assert_eq!(formats.len(), 4);
    }
}

#[test]
fn a_page_without_solution_shows_nothing() {
    let tall = Tray {
        id: 0,
        options: vec![option(Format::Banner, 4, 3.0, 1)],
    };
    let (val, formats) = solve_tray_layout(&[tall], 3, f64::NEG_INFINITY);
    assert_eq!(val, 0.0);
    assert_eq!(formats, vec![Format::Hidden]);
}

#[test]
fn the_best_page_under_a_limit_is_found() {
    let trays = vec![
        Tray {
            id: 0,
            options: vec![
                option(Format::Carousel, 2, 3.0, 5),
                option(Format::Grid2x3, 2, 2.0, 6),
            ],
        },
        Tray {
            id: 1,
            options: vec![option(Format::Carousel, 2, 5.0, 5)],
        },
    ];
    let rules = [ConstraintRule::MaxOccurrences {
        format: Format::Carousel,
        limit: 1,
    }];
    let (val, formats) =
        solve_tray_layout_with_constraints(&trays, 8, &rules, f64::NEG_INFINITY);
    assert_eq!(val, 7.0);
    assert_eq!(formats, vec![Format::Grid2x3, Format::Carousel]);
}

#[test]
fn the_better_of_two_like_options_counts() {
    let trays = [Tray {
        id: 0,
        options: vec![
            option(Format::Carousel, 2, 5.0, 5),
            option(Format::Carousel, 2, 3.0, 5),
        ],
    }];
    let (val, formats) = solve_tray_layout(&trays, 4, f64::NEG_INFINITY);
    assert_eq!(val, 5.0);
    assert_eq!(formats, vec![Format::Carousel]);
}

#[test]
fn a_format_may_come_in_two_heights() {
    let trays = [
        tray(0, 1.0, 3.0),
        Tray {
            id: 1,
            options: vec![
                option(Format::Carousel, 6, 9.0, 9),
                option(Format::Carousel, 2, 4.0, 5),
            ],
        },
    ];
    let (val, formats) = solve_tray_layout(&trays, 6, f64::NEG_INFINITY);
    assert_eq!(val, 9.0);
    assert_eq!(formats, vec![Format::Hidden, Format::Carousel]);
    let (val, formats) = solve_tray_layout(&trays, 5, f64::NEG_INFINITY);
    assert_eq!(val, 5.0);
    assert_eq!(formats, vec![Format::Carousel, Format::Carousel]);
}

#[test]
fn minus_infinity_is_out_of_reach() {
    let trays = [Tray {
        id: 0,
        options: vec![option(Format::Banner, 1, f64::NEG_INFINITY, 1)],
    }];
    let (val, formats) = solve_tray_layout(&trays, 4, f64::NEG_INFINITY);
    assert_eq!(val, 0.0);
    assert_eq!(formats, vec![Format::Hidden]);
    let trays = [tray(0, 1.0, f64::INFINITY), tray(1, 2.0, 4.0)];
    let (val, formats) = solve_tray_layout(&trays, 8, f64::NEG_INFINITY);
    assert_eq!(val, f64::INFINITY);
    assert_eq!(formats, vec![Format::Banner, Format::Hidden]);
}

#[test]
fn the_lowest_of_equally_good_pages_is_taken() {
    let trays = [Tray {
        id: 0,
        options: vec![
            option(Format::Banner, 3, 2.0, 1),
            option(Format::Grid2x3, 2, 2.0, 6),
            option(Format::Carousel, 2, 2.0, 5),
        ],
    }];
    let (val, formats) = solve_tray_layout(&trays, 8, f64::NEG_INFINITY);
    assert_eq!(val, 2.0);
    assert_eq!(formats, vec![Format::Carousel]);
}

#[test]
fn several_limits_bind_together() {
    let mut rules = vec![
        ConstraintRule::MaxOccurrences {
            format: Format::Banner,
            limit: 1,
        },
        ConstraintRule::MaxOccurrences {
            format: Format::Carousel,
            limit: 1,
        },
    ];
    let trays = [tray(0, 2.0, 3.0), tray(1, 1.0, 4.0), tray(2, 5.0, 6.0)];
    let (val, formats) =
        solve_tray_layout_with_constraints(&trays, 100, &rules, f64::NEG_INFINITY);
    assert_eq!(val, 9.0);
    assert_eq!(
        formats,
        vec![Format::Hidden, Format::Banner, Format::Carousel]
    );
    rules.push(ConstraintRule::MaxOccurrences {
        format: Format::Hidden,
        limit: 0,
    });
    let (val, formats) =
        solve_tray_layout_with_constraints(&trays, 100, &rules, f64::NEG_INFINITY);
    assert_eq!(val, 0.0);
    assert_eq!(formats, vec![Format::Hidden; 3]);
}

#[test]
fn a_greater_budget_is_never_worse() {
    let trays = [tray(0, 2.0, 3.0), tray(1, 1.0, 4.0), tray(2, 5.0, 6.0)];
    let rules = [ConstraintRule::MaxOccurrences {
        format: Format::Banner,
        limit: 1,
    }];
    let mut last = f64::NEG_INFINITY;
    for max_height in 0..14 {
        let (val, formats) =
            solve_tray_layout_with_constraints(&trays, max_height, &rules, f64::NEG_INFINITY);
        assert!(val >= last);
        assert!(formats.iter().filter(|f| **f == Format::Banner).count() <= 1);
        last = val;
    }
    assert_eq!(last, 11.0);
}

#[test]
fn whole_utilities_are_taken_too() {
    let option = |format: Format, height: usize, utility: i64| TrayOption {
        format,
        height,
        utility,
        item_count: 1,
    };
    let trays = [
        Tray {
            id: 0,
            options: vec![option(Format::Banner, 3, 4), option(Format::Carousel, 1, 2)],
        },
        Tray {
            id: 1,
            options: vec![option(Format::Banner, 3, 4), option(Format::Grid2x3, 2, -1)],
        },
    ];
    let (val, formats) = solve_tray_layout(&trays, 6, i64::MIN);
    assert_eq!(val, 6);
    assert_eq!(formats, vec![Format::Carousel, Format::Banner]);
    let (val, formats) = solve_tray_layout(&trays, 3, i64::MIN);
    assert_eq!(val, 1);
    assert_eq!(formats, vec![Format::Carousel, Format::Grid2x3]);
}
