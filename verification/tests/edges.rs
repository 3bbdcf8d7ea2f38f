use sidescreen::edges::inner_edges;

fn reference_inner_edges(
    gray: &[u8],
    width: usize,
    height: usize,
    threshold: u8,
    thickness: u8,
) -> Vec<u8> {
    let mut edges = vec![0_u8; gray.len()];
    for y in 0..height {
        for x in 0..width {
            let index = y * width + x;
            let center = gray[index];
            let mut neighbor_minimum = center;
            for neighbor_y in y.saturating_sub(1)..=(y + 1).min(height - 1) {
                for neighbor_x in x.saturating_sub(1)..=(x + 1).min(width - 1) {
                    neighbor_minimum = neighbor_minimum.min(gray[neighbor_y * width + neighbor_x]);
                }
            }
            edges[index] = center
                .saturating_sub(neighbor_minimum)
                .saturating_sub(threshold.max(4))
                .saturating_mul(4);
        }
    }
    for _ in 1..thickness.clamp(1, 4) {
        let previous = edges.clone();
        for y in 0..height {
            for x in 0..width {
                let index = y * width + x;
                let mut value = previous[index];
                if y > 0 && gray[index] >= gray[index - width] {
                    value = value.max(previous[index - width]);
                }
                if y + 1 < height && gray[index] >= gray[index + width] {
                    value = value.max(previous[index + width]);
                }
                if x > 0 && gray[index] >= gray[index - 1] {
                    value = value.max(previous[index - 1]);
                }
                if x + 1 < width && gray[index] >= gray[index + 1] {
                    value = value.max(previous[index + 1]);
                }
                edges[index] = value;
            }
        }
    }
    edges
}

#[test]
fn separable_inner_edge_matches_reference_algorithm() {
    let width = 7;
    let height = 5;
    let gray: Vec<u8> = (0..width * height)
        .map(|index| ((index * 47 + index / 3 * 19) % 256) as u8)
        .collect();
    for thickness in 1..=4 {
        assert_eq!(
            inner_edges(&gray, width, height, 21, thickness),
            reference_inner_edges(&gray, width, height, 21, thickness)
        );
    }
}

#[test]
fn inner_edges_match_reference_for_every_width_and_threshold() {
    let gray: Vec<u8> = (0..48).map(|index| ((index * 91 + 13) % 256) as u8).collect();
    for (width, height) in [(1, 1), (1, 48), (48, 1), (6, 8), (8, 6), (4, 4)] {
        for threshold in [0, 4, 30, 255] {
            for thickness in 0..=6 {
                assert_eq!(
                    inner_edges(&gray, width, height, threshold, thickness),
                    reference_inner_edges(&gray, width, height, threshold, thickness)
                );
            }
        }
    }
}

#[test]
fn inner_edges_of_an_empty_grid_are_zero() {
    let gray = vec![9_u8, 200, 3];
    assert_eq!(inner_edges(&gray, 0, 5, 4, 2), vec![0, 0, 0]);
    assert_eq!(inner_edges(&gray, 3, 0, 4, 2), vec![0, 0, 0]);
    assert_eq!(inner_edges(&[], 3, 3, 4, 2), Vec::<u8>::new());
}

#[test]
fn bytes_past_the_grid_stay_zero() {
    let gray = vec![0_u8, 100, 0, 100, 250, 250];
    let edges = inner_edges(&gray, 2, 2, 4, 3);
    assert_eq!(edges.len(), 6);
    assert_eq!(&edges[4..], &[0, 0]);
    assert_eq!(&edges[..4], &reference_inner_edges(&gray[..4], 2, 2, 4, 3)[..]);
}

#[test]
fn single_bright_pixel_gets_four_times_its_excess() {
    let mut gray = vec![10_u8; 9];
    gray[4] = 40;
    let edges = inner_edges(&gray, 3, 3, 20, 1);
    assert_eq!(edges[4], 40);
    assert_eq!(edges.iter().filter(|value| **value != 0).count(), 1);
}

#[test]
fn strong_contrast_saturates() {
    let mut gray = vec![0_u8; 9];
    gray[4] = 255;
    let edges = inner_edges(&gray, 3, 3, 4, 1);
    assert_eq!(edges[4], 255);
}

#[test]
fn uniform_gray_has_no_edges() {
    let gray = vec![137_u8; 30];
    assert!(inner_edges(&gray, 6, 5, 0, 4).iter().all(|value| *value == 0));
}

#[test]
fn dark_pixels_never_take_an_edge() {
    let width = 9;
    let height = 9;
    let mut gray = vec![0_u8; width * height];
    for y in 2..7 {
        for x in 2..7 {
            gray[y * width + x] = 180;
        }
    }
    for thickness in 1..=4 {
        let edges = inner_edges(&gray, width, height, 4, thickness);
        for (value, edge) in gray.iter().zip(edges.iter()) {
            if *value == 0 {
                assert_eq!(*edge, 0);
            }
        }
        assert!(edges.iter().any(|edge| *edge > 0));
    }
}

fn textured(width: usize, height: usize) -> Vec<u8> {
    (0..width * height)
        .map(|index| ((index * 47 + index / 3 * 19) % 200) as u8)
        .collect()
}

#[test]
fn wider_contours_never_dim_a_pixel() {
    let gray = textured(7, 5);
    for thickness in 0..6u8 {
        let thin = inner_edges(&gray, 7, 5, 21, thickness);
        let thick = inner_edges(&gray, 7, 5, 21, thickness + 1);
        assert!(thin.iter().zip(thick.iter()).all(|(a, b)| a <= b));
    }
    assert_eq!(inner_edges(&gray, 7, 5, 21, 0), inner_edges(&gray, 7, 5, 21, 1));
    assert_eq!(inner_edges(&gray, 7, 5, 21, 9), inner_edges(&gray, 7, 5, 21, 4));
}

#[test]
fn higher_thresholds_never_light_more_pixels() {
    let gray = textured(7, 5);
    for threshold in [0u8, 4, 10, 21, 60, 200] {
        let low = inner_edges(&gray, 7, 5, threshold, 3);
        let high = inner_edges(&gray, 7, 5, threshold + 30, 3);
        assert!(high.iter().zip(low.iter()).all(|(h, l)| h <= l));
    }
    assert_eq!(inner_edges(&gray, 7, 5, 0, 2), inner_edges(&gray, 7, 5, 4, 2));
}

#[test]
fn a_uniform_brightness_shift_keeps_the_contour() {
    let gray = textured(7, 5);
    let shifted: Vec<u8> = gray.iter().map(|value| value + 55).collect();
    for thickness in 1..=4u8 {
        assert_eq!(inner_edges(&shifted, 7, 5, 21, thickness), inner_edges(&gray, 7, 5, 21, thickness));
    }
}
