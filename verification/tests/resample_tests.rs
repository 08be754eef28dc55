use wav_f64vec::{resample_plan, ResamplePoint};

/// Linear interpolation over one sample row, following the plan: the
/// fraction is zero exactly at integer source positions, decided by the
/// plan's integer test.
fn resample_row(row: &[f64], plan: &[ResamplePoint], dst_rate: usize) -> Vec<f64> {
    plan.iter()
        .map(|p| {
            let fraction = if p.exact {
                0.0
            } else {
                (p.scaled_pos as f64 / dst_rate as f64).fract()
            };
            row[p.index_floor] * (1.0 - fraction) + row[p.index_next] * fraction
        })
        .collect()
}

fn convert_sampling_rate_for_channel_rows(
    rows: &Vec<Vec<f64>>,
    src_rate: usize,
    dst_rate: usize,
) -> Vec<Vec<f64>> {
    rows.iter()
        .map(|row| {
            let plan = resample_plan(row.len(), src_rate, dst_rate);
            resample_row(row, &plan, dst_rate)
        })
        .collect()
}

fn convert_sampling_rate_for_data_rows(
    rows: &Vec<Vec<f64>>,
    src_rate: usize,
    dst_rate: usize,
) -> Vec<Vec<f64>> {
    let channels = if rows.is_empty() { 0 } else { rows[0].len() };
    let plan = resample_plan(rows.len(), src_rate, dst_rate);
    plan.iter()
        .map(|p| {
            (0..channels)
                .map(|ch| {
                    let fraction = if p.exact {
                        0.0
                    } else {
                        (p.scaled_pos as f64 / dst_rate as f64).fract()
                    };
                    rows[p.index_floor][ch] * (1.0 - fraction) + rows[p.index_next][ch] * fraction
                })
                .collect()
        })
        .collect()
}

#[test]
fn convert_sampling_rate_test() {
    // 32000 to 48000
    let dst_data48k = |dst_data_idx: usize, src_data1: f64, src_data2: f64| {
        let fraction = if (dst_data_idx * 32000 % 48000) == 0 {
            0.0
        } else {
            ((dst_data_idx * 32000) as f64 / 48000 as f64).fract()
        };
        src_data1 * (1.0 - fraction) + src_data2 * fraction
    };
    // 32000 to 22050
    let dst_data22k = |dst_data_idx: usize, src_data1: f64, src_data2: f64| {
        let fraction = if (dst_data_idx * 32000 % 22050) == 0 {
            0.0
        } else {
            ((dst_data_idx * 32000) as f64 / 22050 as f64).fract()
        };
        src_data1 * (1.0 - fraction) + src_data2 * fraction
    };

    {
        let channel_data_32000_vec: Vec<Vec<f64>> = vec![
            vec![0.00, 0.50, 1.00, 0.50, 0.00, -0.50, -1.00, -0.50, 0.00],
            vec![0.00, -0.50, -1.00, -0.50, 0.00, 0.50, 1.00, 0.50, 0.00],
        ];

        let new_channel_data_vec =
            convert_sampling_rate_for_channel_rows(&channel_data_32000_vec, 32000, 16000);
        let channel_data_16000_vec: Vec<Vec<f64>> = vec![
            vec![0.00, 1.00, 0.00, -1.00, 0.00],
            vec![0.00, -1.00, 0.00, 1.00, 0.00],
        ];
        assert_eq!(new_channel_data_vec, channel_data_16000_vec);
        let new_channel_data_vec =
            convert_sampling_rate_for_channel_rows(&channel_data_32000_vec, 32000, 48000);
        let channel_data_48000_vec: Vec<Vec<f64>> = vec![
            vec![0.00, dst_data48k(1, 0.00, 0.50), dst_data48k(2, 0.50, 1.00), 1.00, dst_data48k(4, 1.00, 0.50), dst_data48k(5, 0.50, 0.00), 0.00, dst_data48k(7, 0.00, -0.50), dst_data48k(8, -0.50, -1.00), -1.00, dst_data48k(10, -1.00, -0.50), dst_data48k(11, -0.50, 0.00), 0.00, 0.00],
            vec![0.00, dst_data48k(1, 0.00, -0.50), dst_data48k(2, -0.50, -1.00), -1.00, dst_data48k(4, -1.00, -0.50), dst_data48k(5, -0.50, 0.00), 0.00, dst_data48k(7, 0.00, 0.50), dst_data48k(8, 0.50, 1.00), 1.00, dst_data48k(10, 1.00, 0.50), dst_data48k(11, 0.50, 0.00), 0.00, 0.00],
        ];
        assert_eq!(new_channel_data_vec, channel_data_48000_vec);

        let new_channel_data_vec =
            convert_sampling_rate_for_channel_rows(&channel_data_32000_vec, 32000, 22050);
        let channel_data_22500_vec: Vec<Vec<f64>> = vec![
            vec![0.00, dst_data22k(1, 0.50, 1.00),  dst_data22k(2, 1.00, 0.50), dst_data22k(3, 0.00, -0.50), dst_data22k(4, -0.50, -1.00), dst_data22k(5, -0.50, 0.00), dst_data22k(6, 0.00, 0.00)],
            vec![0.00, dst_data22k(1, -0.50, -1.00),  dst_data22k(2, -1.00, -0.50), dst_data22k(3, 0.00, 0.50), dst_data22k(4, 0.50, 1.00), dst_data22k(5, 0.50, 0.00), dst_data22k(6, 0.00, 0.00)],
        ];
        assert_eq!(new_channel_data_vec, channel_data_22500_vec);
    }

    {
        let data_channel_32000_vec: Vec<Vec<f64>> = vec![
            vec![0.00, 0.00],
            vec![0.50, -0.50],
            vec![1.00, -1.00],
            vec![0.50, -0.50],
            vec![0.00, 0.00],
            vec![-0.50, 0.50],
            vec![-1.00, 1.00],
            vec![-0.50, 0.50],
            vec![0.00, 0.00],
        ];

        let new_channel_data_vec =
            convert_sampling_rate_for_data_rows(&data_channel_32000_vec, 32000, 16000);
        let channel_data_16000_vec: Vec<Vec<f64>> = vec![
            vec![0.00, 0.00],
            vec![1.00, -1.00],
            vec![0.00, 0.00],
            vec![-1.00, 1.00],
            vec![0.00, 0.00],
        ];
        assert_eq!(new_channel_data_vec, channel_data_16000_vec);
        let new_channel_data_vec =
            convert_sampling_rate_for_data_rows(&data_channel_32000_vec, 32000, 48000);
        let channel_data_48000_vec: Vec<Vec<f64>> = vec![
            vec![0.00, 0.00],
            vec![dst_data48k(1, 0.00, 0.50), dst_data48k(1, 0.00, -0.50)],
            vec![dst_data48k(2, 0.50, 1.00), dst_data48k(2, -0.50, -1.00)],
            vec![1.00, -1.00],
            vec![dst_data48k(4, 1.00, 0.50), dst_data48k(4, -1.00, -0.50)],
            vec![dst_data48k(5, 0.50, 0.00), dst_data48k(5, -0.50, 0.00)],
            vec![0.00, 0.00],
            vec![dst_data48k(7, 0.00, -0.50), dst_data48k(7, 0.00, 0.50)],
            vec![dst_data48k(8, -0.50, -1.00), dst_data48k(8, 0.50, 1.00)],
            vec![-1.00, 1.00],
            vec![dst_data48k(10, -1.00, -0.50), dst_data48k(10, 1.00, 0.50)],
            vec![dst_data48k(11, -0.50, 0.00), dst_data48k(11, 0.50, 0.00)],
            vec![0.00, 0.00],
            vec![0.00, 0.00],
        ];
        assert_eq!(new_channel_data_vec, channel_data_48000_vec);

        let new_channel_data_vec =
            convert_sampling_rate_for_data_rows(&data_channel_32000_vec, 32000, 22050);
        let channel_data_22500_vec: Vec<Vec<f64>> = vec![
            vec![0.00, 0.00],
            vec![dst_data22k(1, 0.50, 1.00), dst_data22k(1, -0.50, -1.00)],
            vec![dst_data22k(2, 1.00, 0.50), dst_data22k(2, -1.00, -0.50)],
            vec![dst_data22k(3, 0.00, -0.50), dst_data22k(3, 0.00, 0.50)],
            vec![dst_data22k(4, -0.50, -1.00), dst_data22k(4, 0.50, 1.00)],
            vec![dst_data22k(5, -0.50, 0.00), dst_data22k(5, 0.50, 0.00)],
            vec![dst_data22k(6, 0.00, 0.00), dst_data22k(6, 0.00, 0.00)],
        ];
        assert_eq!(new_channel_data_vec, channel_data_22500_vec);
    }
}

#[test]
fn halving_the_rate_picks_even_samples_exactly() {
    // at an exact 2:1 ratio every output position is an integer source
    // position, so the plan marks each point exact and the interpolation
    // touches the even-index samples alone, with zero error
    let plan = resample_plan(9, 32000, 16000);
    assert_eq!(plan.len(), 5);
    for (i, p) in plan.iter().enumerate() {
        assert!(p.exact);
        assert_eq!(p.index_floor, 2 * i);
    }
    let row = [0.0, 0.5, 1.0, 0.5, 0.0, -0.5, -1.0, -0.5, 0.0];
    assert_eq!(resample_row(&row, &plan, 16000), vec![0.0, 1.0, 0.0, -1.0, 0.0]);

    let wave = [0.0, 1.0, 0.0, -1.0, 0.0];
    let plan = resample_plan(5, 32000, 16000);
    assert_eq!(plan.len(), 3);
    assert_eq!(resample_row(&wave, &plan, 16000), vec![0.0, 0.0, 0.0]);
}

#[test]
fn plan_clamps_past_the_last_sample() {
    // upsampling 32000 to 48000 over 9 samples gives 14 positions; the
    // last position lies past the final sample and clamps to it
    let plan = resample_plan(9, 32000, 48000);
    assert_eq!(plan.len(), 14);
    assert_eq!(plan[12].index_floor, 8);
    assert_eq!(plan[12].index_next, 8);
    assert!(plan[12].exact);
    assert_eq!(plan[13].index_floor, 8);
    assert_eq!(plan[13].index_next, 8);
    assert!(!plan[13].exact);
    // interior positions interpolate between neighbours
    assert_eq!(plan[1].index_floor, 0);
    assert_eq!(plan[1].index_next, 1);
    assert_eq!(plan[1].scaled_pos, 32000);
    assert!(!plan[1].exact);
}
