use qrgen::drawer::QR;
use qrgen::encoder::{ErrorCorrection, QrError};
use qrgen::tables::{get_block_layout, get_remainder_bit_count};

fn blank(version: usize, data: Vec<u8>) -> QR {
    let size = 17 + 4 * version;
    QR {
        size,
        matrix: vec![128; size * size],
        version,
        level: ErrorCorrection::Low,
        data,
        byte_index: 0,
        bit_index: 0,
    }
}

fn template(version: usize) -> QR {
    let mut qr = blank(version, Vec::new());
    qr.draw_initial_patterns();
    qr.draw_dummy_format_areas();
    qr.draw_version_info();
    qr
}

fn picture(qr: &QR, x0: usize, y0: usize, width: usize, height: usize) -> Vec<String> {
    let mut lines = Vec::new();
    for y in y0..y0 + height {
        let mut line = String::new();
        for x in x0..x0 + width {
            line.push(match qr.get_module(x, y) {
                0 => '#',
                255 => '.',
                _ => '?',
            });
        }
        lines.push(line);
    }
    lines
}

#[test]
fn input_beyond_version_40_gives_no_symbol() {
    let long = "x".repeat(2954);
    match QR::create(long.as_str(), ErrorCorrection::Low) {
        Ok(_) => panic!("a symbol for an input that no version holds"),
        Err(error) => assert_eq!(error, QrError::CapacityExceeded),
    }
    let long = "7".repeat(3058);
    assert!(QR::create(long.as_str(), ErrorCorrection::High).is_err());
    let fits = "7".repeat(3057);
    assert_eq!(QR::create(fits.as_str(), ErrorCorrection::High).unwrap().size, 177);
}

#[test]
fn empty_input_gives_a_symbol_of_version_1() {
    let qr = QR::create("", ErrorCorrection::High).unwrap();
    assert_eq!(qr.size, 21);
    assert_eq!(qr.version, 1);
    assert_eq!(qr.data.len(), 26);
    assert_eq!(&qr.data[..9], [0x40, 0x00, 0xEC, 0x11, 0xEC, 0x11, 0xEC, 0x11, 0xEC]);
    assert_eq!(
        picture(&qr, 0, 0, 21, 21),
        [
            "#######...##..#######",
            "#.....#..###..#.....#",
            "#.###.#.##..#.#.###.#",
            "#.###.#.###...#.###.#",
            "#.###.#..##...#.###.#",
            "#.....#...#.#.#.....#",
            "#######.#.#.#.#######",
            "..........#..........",
            "...##.##.#.##....##..",
            "##..#....##.###.#.#.#",
            "....#.#.#.##....#.##.",
            "###.......##.##..##.#",
            "#...#.##.#..#.#...#..",
            "........#.#..#.#.#.##",
            "#######.##.....##..#.",
            "#.....#.....#..###..#",
            "#.###.#.###.####.##.#",
            "#.###.#.#...###.###..",
            "#.###.#..#..#.....###",
            "#.....#......#..#.###",
            "#######....#.#...##..",
        ]
    );
}

#[test]
fn finished_symbols_have_no_unset_module() {
    let text = "The quick brown fox jumps over the lazy dog. ".repeat(20);
    for len in [0usize, 5, 40, 120, 333, 800] {
        for level in [ErrorCorrection::Low, ErrorCorrection::Quartile] {
            let qr = QR::create(&text[..len], level).unwrap();
            assert!(qr.is_well_formed());
            assert!(qr.matrix.iter().all(|c| *c == 0 || *c == 255));
        }
    }
}

#[test]
fn finished_symbols_keep_the_fixed_patterns() {
    let text = "The quick brown fox jumps over the lazy dog. ".repeat(20);
    for len in [3usize, 90, 400] {
        let qr = QR::create(&text[..len], ErrorCorrection::Medium).unwrap();
        let base = template(qr.version);
        let size = qr.size;
        for y in 0..size {
            for x in 0..size {
                let format = (x == 8 && (y <= 8 || y >= size - 7) && y != 6)
                    || (y == 8 && (x <= 8 || x >= size - 8) && x != 6);
                let fixed = base.get_module(x, y);
                if fixed != 128 && !format {
                    assert_eq!(qr.get_module(x, y), fixed);
                }
            }
        }
    }
}

#[test]
fn template_of_version_1() {
    let qr = template(1);
    assert_eq!(
        picture(&qr, 0, 0, 21, 21),
        [
            "#######..????.#######",
            "#.....#..????.#.....#",
            "#.###.#..????.#.###.#",
            "#.###.#..????.#.###.#",
            "#.###.#..????.#.###.#",
            "#.....#..????.#.....#",
            "#######.#.#.#.#######",
            ".........????........",
            "......#..????........",
            "??????.??????????????",
            "??????#??????????????",
            "??????.??????????????",
            "??????#??????????????",
            "........#????????????",
            "#######..????????????",
            "#.....#..????????????",
            "#.###.#..????????????",
            "#.###.#..????????????",
            "#.###.#..????????????",
            "#.....#..????????????",
            "#######..????????????",
        ]
    );
}

#[test]
fn template_has_room_for_the_codewords_and_the_remainder_bits() {
    for version in 1..=40usize {
        let qr = template(version);
        let free = qr.matrix.iter().filter(|c| **c == 128).count();
        for level in 0..4 {
            let layout = get_block_layout(version, level);
            let codewords = layout.blocks1 * layout.len1
                + layout.blocks2 * layout.len2
                + (layout.blocks1 + layout.blocks2) * layout.ecc_count;
            assert_eq!(free, 8 * codewords + get_remainder_bit_count(version));
        }
    }
}

#[test]
fn finder_pattern_in_each_corner() {
    let mut qr = blank(2, Vec::new());
    qr.draw_finder_pattern(0, 0);
    qr.draw_finder_pattern(0, 17);
    qr.draw_finder_pattern(17, 0);
    let upper_left = [
        "#######.", "#.....#.", "#.###.#.", "#.###.#.", "#.###.#.", "#.....#.", "#######.",
        "........",
    ];
    let lower_left = [
        "........", "#######.", "#.....#.", "#.###.#.", "#.###.#.", "#.###.#.", "#.....#.",
        "#######.",
    ];
    let upper_right = [
        ".#######", ".#.....#", ".#.###.#", ".#.###.#", ".#.###.#", ".#.....#", ".#######",
        "........",
    ];
    assert_eq!(picture(&qr, 0, 0, 8, 8), upper_left);
    assert_eq!(picture(&qr, 0, 17, 8, 8), lower_left);
    assert_eq!(picture(&qr, 17, 0, 8, 8), upper_right);
    assert_eq!(qr.get_module(8, 8), 128);
    assert_eq!(qr.get_module(16, 0), 128);
    assert_eq!(qr.get_module(0, 16), 128);
}

#[test]
fn alignment_patterns_avoid_the_finder_patterns() {
    let mut qr = blank(7, Vec::new());
    qr.draw_alignment_patterns();
    let stamp = ["#####", "#...#", "#.#.#", "#...#", "#####"];
    let centres = [6usize, 22, 38];
    for cy in centres {
        for cx in centres {
            let corner = (cx == 6 && cy == 6) || (cx == 38 && cy == 6) || (cx == 6 && cy == 38);
            if corner {
                assert!(picture(&qr, cx - 2, cy - 2, 5, 5)
                    .iter()
                    .all(|line| line == "?????"));
            } else {
                assert_eq!(picture(&qr, cx - 2, cy - 2, 5, 5), stamp);
            }
        }
    }
    let drawn = qr.matrix.iter().filter(|c| **c != 128).count();
    assert_eq!(drawn, 6 * 25);
}

#[test]
fn single_alignment_pattern() {
    let mut qr = blank(1, Vec::new());
    qr.draw_alignment_pattern(10, 12);
    assert_eq!(
        picture(&qr, 7, 9, 7, 7),
        ["???????", "?#####?", "?#...#?", "?#.#.#?", "?#...#?", "?#####?", "???????"]
    );
}

#[test]
fn version_information_of_version_7() {
    let mut qr = blank(7, Vec::new());
    qr.draw_version_info();
    assert_eq!(picture(&qr, 0, 34, 6, 3), ["....#.", ".####.", "#..##."]);
    assert_eq!(
        picture(&qr, 34, 0, 3, 6),
        ["..#", ".#.", ".#.", ".##", "###", "..."]
    );
    let drawn = qr.matrix.iter().filter(|c| **c != 128).count();
    assert_eq!(drawn, 36);

    let mut small = blank(6, Vec::new());
    small.draw_version_info();
    assert!(small.matrix.iter().all(|c| *c == 128));
}

#[test]
fn reserved_cells_and_dark_module() {
    let mut qr = blank(1, Vec::new());
    qr.set_module(8, 6, 0);
    qr.set_module(6, 8, 0);
    qr.draw_dummy_format_areas();
    assert_eq!(qr.get_module(8, 13), 0);
    assert_eq!(qr.get_module(8, 8), 255);
    assert_eq!(qr.get_module(8, 6), 0);
    assert_eq!(qr.get_module(6, 8), 0);
    for i in 0..8 {
        if i != 6 {
            assert_eq!(qr.get_module(8, i), 255);
            assert_eq!(qr.get_module(i, 8), 255);
        }
        assert_eq!(qr.get_module(20 - i, 8), 255);
        if i != 7 {
            assert_eq!(qr.get_module(8, 20 - i), 255);
        }
    }
    let drawn = qr.matrix.iter().filter(|c| **c != 128).count();
    assert_eq!(drawn, 33);
}

#[test]
fn format_information_of_low_level_and_mask_4() {
    let mut qr = blank(1, Vec::new());
    qr.draw_format_info(4);
    assert_eq!(picture(&qr, 0, 8, 21, 1), ["##..##?..????..#.####"]);
    let column: String = (0..21)
        .map(|y| match qr.get_module(8, y) {
            0 => '#',
            255 => '.',
            _ => '?',
        })
        .collect();
    assert_eq!(column, "####.#?..?????.##..##");
    let drawn = qr.matrix.iter().filter(|c| **c != 128).count();
    assert_eq!(drawn, 30);
}

#[test]
fn mask_rules() {
    let qr = blank(1, Vec::new());
    let expected: [[&str; 6]; 8] = [
        ["#.#.#.", ".#.#.#", "#.#.#.", ".#.#.#", "#.#.#.", ".#.#.#"],
        ["######", "......", "######", "......", "######", "......"],
        ["#..#..", "#..#..", "#..#..", "#..#..", "#..#..", "#..#.."],
        ["#..#..", "..#..#", ".#..#.", "#..#..", "..#..#", ".#..#."],
        ["###...", "###...", "...###", "...###", "###...", "###..."],
        ["######", "#.....", "#..#..", "#.#.#.", "#..#..", "#....."],
        ["######", "###...", "##.##.", "#.#.#.", "#.##.#", "#...##"],
        ["#.#.#.", "...###", "#...##", ".#.#.#", "###...", ".###.."],
    ];
    for mask in 0..8 {
        for y in 0..6 {
            let line: String = (0..6)
                .map(|x| if qr.get_mask_rule(x, y, mask) == 1 { '#' } else { '.' })
                .collect();
            assert_eq!(line, expected[mask][y]);
        }
    }
    assert_eq!(qr.get_mask_rule(0, 0, 8), 0);
    assert_eq!(qr.get_mask_rule(usize::MAX, usize::MAX, 5), 0);
    assert_eq!(qr.get_mask_rule(usize::MAX - 1, usize::MAX, 5), 1);
}

#[test]
fn bits_come_most_significant_first() {
    let mut qr = blank(1, vec![0b1010_0001, 0xFF]);
    let mut bits = Vec::new();
    for _ in 0..20 {
        bits.push(qr.get_next_bit());
    }
    assert_eq!(bits, [1, 0, 1, 0, 0, 0, 0, 1, 1, 1, 1, 1, 1, 1, 1, 1, 0, 0, 0, 0]);
    assert_eq!(qr.byte_index, 2);
    assert_eq!(qr.bit_index, 0);
}

#[test]
fn colours_of_bits() {
    let qr = blank(1, Vec::new());
    assert_eq!(qr.get_color(0), 255);
    assert_eq!(qr.get_color(1), 0);
}

#[test]
fn reset_restores_grid_and_cursor() {
    let mut qr = blank(1, vec![0xF0]);
    let copy = qr.matrix.clone();
    qr.set_module(3, 4, 0);
    qr.get_next_bit();
    qr.reset(&copy);
    assert_eq!(qr.matrix, copy);
    assert_eq!(qr.byte_index, 0);
    assert_eq!(qr.bit_index, 0);
    assert_eq!(qr.get_next_bit(), 1);
}

#[test]
fn data_walks_up_the_right_edge_first() {
    let mut qr = template(1);
    qr.data = vec![0b1100_1010, 0b0011_0101];
    qr.draw_and_mask_data_bits(8);
    assert_eq!(qr.get_module(20, 20), 0);
    assert_eq!(qr.get_module(19, 20), 0);
    assert_eq!(qr.get_module(20, 19), 255);
    assert_eq!(qr.get_module(19, 19), 255);
    assert_eq!(qr.get_module(20, 18), 0);
    assert_eq!(qr.get_module(19, 18), 255);
    assert_eq!(qr.get_module(20, 17), 0);
    assert_eq!(qr.get_module(19, 17), 255);
    assert_eq!(qr.get_module(20, 16), 255);
    assert_eq!(qr.get_module(19, 16), 255);
    assert_eq!(qr.get_module(20, 15), 0);
    assert_eq!(qr.get_module(19, 15), 0);
    assert_eq!(qr.get_module(20, 9), 255);
    assert_eq!(qr.get_module(18, 9), 255);
    assert_eq!(qr.get_module(6, 10), 0);
    assert!(qr.matrix.iter().all(|c| *c != 128));
    assert_eq!(qr.byte_index, 2);
    assert_eq!(qr.bit_index, 0);
}

#[test]
fn penalty_of_a_plain_grid() {
    let mut qr = blank(1, Vec::new());
    for c in qr.matrix.iter_mut() {
        *c = 255;
    }
    assert_eq!(qr.get_run_penalty(), 2 * 21 * 19);
    assert_eq!(qr.get_block_penalty(), 3 * 20 * 20);
    assert_eq!(qr.get_finder_penalty(), 0);
    assert_eq!(qr.get_ratio_penalty(), 90);
    assert_eq!(qr.get_penalty(), 798 + 1200 + 90);

    for c in qr.matrix.iter_mut() {
        *c = 0;
    }
    assert_eq!(qr.get_ratio_penalty(), 100);
}

#[test]
fn penalty_of_runs_and_look_alikes() {
    let mut qr = blank(1, Vec::new());
    for (i, c) in qr.matrix.iter_mut().enumerate() {
        *c = if (i % 21 + i / 21) % 2 == 0 { 0 } else { 255 };
    }
    assert_eq!(qr.get_run_penalty(), 0);
    assert_eq!(qr.get_block_penalty(), 0);
    assert_eq!(qr.get_finder_penalty(), 0);
    assert_eq!(qr.get_ratio_penalty(), 0);

    for x in 0..7 {
        qr.set_module(x, 0, 0);
    }
    assert_eq!(qr.get_run_penalty(), 5);

    let core = [0u8, 255, 0, 0, 0, 255, 0, 255, 255, 255, 255];
    for (i, c) in core.iter().enumerate() {
        qr.set_module(5 + i, 10, *c);
    }
    qr.set_module(4, 10, 255);
    assert_eq!(qr.get_finder_penalty(), 40);
}

#[test]
fn every_bit_of_the_codewords_is_placed() {
    let text = "The quick brown fox jumps over the lazy dog. ".repeat(20);
    for len in [0usize, 9, 77, 250, 640] {
        for level in [ErrorCorrection::Low, ErrorCorrection::High] {
            let qr = QR::create(&text[..len], level).unwrap();
            assert_eq!(qr.byte_index, qr.data.len());
            assert_eq!(qr.bit_index, 0);
        }
    }
}

#[test]
fn size_goes_by_the_number_of_characters() {
    let qr = QR::create("\n\n\n\n", ErrorCorrection::High).unwrap();
    assert_eq!(qr.version, 1);
    assert_eq!(qr.size, 21);
    let qr = QR::create("aЉ윇😱", ErrorCorrection::Medium).unwrap();
    assert_eq!(qr.size, 21);
    assert_eq!(&qr.data[..2], [0x40, 0x46]);
    let text = "😱".repeat(17);
    assert!(QR::create(text.as_str(), ErrorCorrection::Low).is_err());
}
