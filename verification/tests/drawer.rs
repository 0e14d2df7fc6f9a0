use qrgen::drawer::QR;
use qrgen::encoder::ErrorCorrection;

fn rows(qr: &QR) -> Vec<String> {
    let mut lines = Vec::new();
    for y in 0..qr.size {
        let mut line = String::new();
        for x in 0..qr.size {
            line.push(match qr.matrix[y * qr.size + x] {
                0 => '#',
                255 => '.',
                _ => '?',
            });
        }
        lines.push(line);
    }
    lines
}

fn checksum(matrix: &[u8]) -> u64 {
    let mut h: u64 = 0;
    for c in matrix {
        h = (h * 31 + *c as u64) % 1000000007;
    }
    h
}

#[test]
fn symbol_of_version_1() {
    let qr = QR::create("Pretty cool!", ErrorCorrection::Low).unwrap();
    assert_eq!(qr.size, 21);
    let expected = [
        "#######.#...#.#######",
        "#.....#.##.#..#.....#",
        "#.###.#.#####.#.###.#",
        "#.###.#.#.#.#.#.###.#",
        "#.###.#..####.#.###.#",
        "#.....#.#.#.#.#.....#",
        "#######.#.#.#.#######",
        ".....................",
        "##..###.....#..#.####",
        "...##..###..###.#.#..",
        ".##.#.#.#.#.###.####.",
        "##.##......###.##....",
        ".#######.#.#.#.....##",
        "........#...#...###.#",
        "#######....#.####..#.",
        "#.....#.#.#..#..#....",
        "#.###.#.#...##..##...",
        "#.###.#...#....######",
        "#.###.#..###.##.##...",
        "#.....#.#.##.#.##....",
        "#######.####.#.#.#..#",
    ];
    assert_eq!(rows(&qr), expected);
}

#[test]
fn symbol_of_digits() {
    let qr = QR::create("0123456789012345", ErrorCorrection::Medium).unwrap();
    assert_eq!(qr.size, 21);
    let expected = [
        "#######.#..#..#######",
        "#.....#.#.#...#.....#",
        "#.###.#.#.#.#.#.###.#",
        "#.###.#..####.#.###.#",
        "#.###.#.#.###.#.###.#",
        "#.....#..#....#.....#",
        "#######.#.#.#.#######",
        ".....................",
        "#..######..#.#..#.###",
        "##.##..#.#####..###.#",
        "..#..###...##..#..##.",
        "#..#.#..#.#.#####.#..",
        "#...#.#.#.#####.##.##",
        "........###.###.#####",
        "#######.##.#...#...#.",
        "#.....#.###...#.....#",
        "#.###.#.#.#..##.##.##",
        "#.###.#.###.###.#.#..",
        "#.###.#..#####..##.##",
        "#.....#...###..#.#..#",
        "#######.#...##.##..#.",
    ];
    assert_eq!(rows(&qr), expected);
}

#[test]
fn symbol_with_alignment_pattern() {
    let qr = QR::create("HELLO WORLD 123 :/ HELLO WORLD 123 :/", ErrorCorrection::Quartile).unwrap();
    assert_eq!(qr.size, 29);
    let expected = [
        "#######.#...###.#.#.#.#######",
        "#.....#..##.##.....#..#.....#",
        "#.###.#..####..#.#.##.#.###.#",
        "#.###.#..##.#..###.##.#.###.#",
        "#.###.#.#.#..#..#...#.#.###.#",
        "#.....#.#.#....##.#...#.....#",
        "#######.#.#.#.#.#.#.#.#######",
        ".........##...#.....#........",
        ".#######.######.#.##...##...#",
        "##.#.#....#......#...#...#..#",
        ".##.###..#...#..##.........##",
        "#....#..###..#....#..#....##.",
        "...#..#.##########.##.#.#..#.",
        "#...##.#.#.##....#.#...#.#..#",
        "###.#.##.##..###.#.#...####..",
        "#..#...#.#..##..###....#..###",
        "##..#.#.###..#..#...#.#.....#",
        "#.#.....#.....##.##.#...#.#.#",
        "#..##.##.#####.##...#..#..###",
        "#.##...###.#...#.##..#...#.##",
        "#....##......#.##...#####.##.",
        "........###..#.##.#.#...####.",
        "#######.#.#...#...###.#.##...",
        "#.....#.##....#.....#...#..##",
        "#.###.#.#..##..#..########..#",
        "#.###.#.#.###.####.#.....##..",
        "#.###.#.#.##.##..#####..#.##.",
        "#.....#.#.#.###.###...##.####",
        "#######..#..#....##....#####.",
    ];
    assert_eq!(rows(&qr), expected);
}

#[test]
fn symbol_with_version_information() {
    let input: String = std::iter::repeat("Hello, world! 123").take(5).collect();
    let qr = QR::create(input.as_str(), ErrorCorrection::High).unwrap();
    assert_eq!(qr.size, 53);
    let expected = [
        "#######.##.###.#.###.###..#...####..#....##...#######",
        "#.....#.#.##.#.#......###.##....##.#.###.###..#.....#",
        "#.###.#.##....#.#.##.#..##.###......#..##..#..#.###.#",
        "#.###.#..#....##..#..##..#.####....#..#..##.#.#.###.#",
        "#.###.#..##..##.#..##.#######..####..#.#..#...#.###.#",
        "#.....#.###.#.#..#.#.####...####.#.#..#.#.#...#.....#",
        "#######.#.#.#.#.#.#.#.#.#.#.#.#.#.#.#.#.#.#.#.#######",
        "........##..#.#.#.###.#.#...###...#.#######..........",
        "..###.#.##.#..##..#.#.########..#...###...#.####..###",
        "#..#....##.##..#######......##.#####....#.#....#.#..#",
        "......#.#.##..#.##...##..#...##.##..#.#....#######...",
        "##..##.#.#.##.##.##..##.###..######...##..####...#.#.",
        ".#..#.#.#......#.......#....#..#.####...#.##....#.##.",
        "#....#.###..#....##.....##...#....#.##.####..#..#..##",
        "#.##..##.##...#.#...####......#..#.#..#.##.#...##..#.",
        "###.##..####..##..#..##....#.#..##.....####...##...#.",
        "#...#.#..##.#.##...#....#.#.....#.###..#.##.##..###..",
        ".###.#....####.#.##....#.#....#....#.....###.......#.",
        "#.#..##.#......#.##..##.#.#....#...#####....###.#.#..",
        "#..##..#.##.##...##..#.##.##.###...##..#..#..#...#...",
        ".#.#..#.#.#...#.#.#.##.#....#.##.##.##...####..##.#..",
        "#...#..#.#####..##.##.#....###.....##...#.#..#..####.",
        ".###.##.#..#...#####.#.####..###.##.##.#.#....##....#",
        "##.##..##.#.##.#..#.#####.......##.#.#####...#.#...##",
        "##.######....####..##.########...#..###...#.#####.#.#",
        ".#.##...###...#.#.###.###...#...#.#..#.#.####...#..##",
        ".#..#.#.####.#..#....##.#.#.#..####.###.#..##.#.##.#.",
        "#####...####...#..#.#.#.#...#.#...#..##.##..#...#...#",
        "#..######....###...#.#..########.####.......######..#",
        ".#..#..#.#.###..###.##.########..#..##..##...####.#.#",
        "#.#.####.##.#..#.#######...#....####..#.#.##...#.....",
        ".......####...#..###.#.#.##..#####.#....##.#.###.#..#",
        "########.#..#...#####.##..##...######.##..#...##..#.#",
        "#.#.##......###.....####....#.....#.#..#..#.#.#.#..##",
        "....#.#..#.#...##.#...####....##.##.####...#.#..##.#.",
        "#.#.....#.#######.##..#..#######.##..####..####.#....",
        "##..####..##.#...##...##.#..##.###..#.....#..#....##.",
        "#....#..##..##.#...####...##.#.#.##.##...##.#.####.##",
        "#.#.#.##.####.#.#...#.##.##.###...###.#....##..####..",
        "####.#...#.##.##.##....#....#.#.##..###.#.##.#.###.#.",
        "#.###.##.###.#.#..##.#.#.#..##.##.###....##..#..#.###",
        "#.#.#.....##.######...#..##.....####...#..##...#.####",
        "##.####.##.#.#.#.##..#.##...#.##.##.#.##.....#.....#.",
        ".##.....##...####...##.#.##..#...##..#...#######.#.#.",
        "...#..##.#.#...####.#..#########.##.##.#.#..#####.#.#",
        "........#.#.#..#.#.##.#.#...#..##.##.#...##.#...#..##",
        "#######....##.#.####...##.#.##....##..##....#.#.##...",
        "#.....#...##..#.#..##.#.#...###.#.#....###.##...#..#.",
        "#.###.#.#..###.#......#.#####..##..###.#..#########.#",
        "#.###.#.#.###.###..#.#...#####....#....#.##...##.##..",
        "#.###.#.####.#.#....#.######..#.###.###....##.###....",
        "#.....#...##..#..####.###.#.#.##..#.###.#.#.#...##.#.",
        "#######..#.#.#..##...##...##########..##...##.#.#.#..",
    ];
    assert_eq!(rows(&qr), expected);
}

#[test]
fn symbols_of_many_versions() {
    let text = "The quick brown fox jumps over the lazy dog. ".repeat(80);
    let cases: [(usize, ErrorCorrection, usize, u64); 8] = [
        (10, ErrorCorrection::Low, 21, 712009209),
        (60, ErrorCorrection::Medium, 33, 19276959),
        (300, ErrorCorrection::Quartile, 81, 844454348),
        (700, ErrorCorrection::High, 137, 403101492),
        (1500, ErrorCorrection::Low, 129, 879222437),
        (1273, ErrorCorrection::High, 177, 22691291),
        (2953, ErrorCorrection::Low, 177, 892443015),
        (150, ErrorCorrection::Quartile, 57, 74350367),
    ];
    for (len, level, size, sum) in cases {
        let qr = QR::create(&text[..len], level).unwrap();
        assert_eq!(qr.size, size);
        assert_eq!(checksum(&qr.matrix), sum);
    }
}

#[test]
fn every_mask_is_chosen_for_some_input() {
    let cases: [(&str, u64); 8] = [
        ("mask 10", 501988241),
        ("mask 168", 152530484),
        ("mask 0", 118517275),
        ("mask 3", 996353796),
        ("mask 103", 993064714),
        ("mask 11", 409565833),
        ("mask 265", 363643050),
        ("mask 6", 780883297),
    ];
    for (text, sum) in cases {
        let qr = QR::create(text, ErrorCorrection::Low).unwrap();
        assert_eq!(checksum(&qr.matrix), sum);
    }
}

#[test]
fn symbol_of_text_with_line_feed() {
    let qr = QR::create("line one\nline two", ErrorCorrection::Medium).unwrap();
    assert_eq!(qr.size, 25);
    assert_eq!(checksum(&qr.matrix), 881253891);
}

#[test]
fn penalties_of_a_symbol() {
    let qr = QR::create("Pretty cool!", ErrorCorrection::Low).unwrap();
    assert_eq!(qr.get_run_penalty(), 184);
    assert_eq!(qr.get_block_penalty(), 117);
    assert_eq!(qr.get_finder_penalty(), 760);
    assert_eq!(qr.get_ratio_penalty(), 0);
    assert_eq!(qr.get_penalty(), 1061);
}

#[test]
fn penalties_of_a_large_symbol() {
    let input: String = std::iter::repeat("Hello, world! 123").take(5).collect();
    let qr = QR::create(input.as_str(), ErrorCorrection::High).unwrap();
    assert_eq!(qr.get_run_penalty(), 663);
    assert_eq!(qr.get_block_penalty(), 768);
    assert_eq!(qr.get_finder_penalty(), 880);
    assert_eq!(qr.get_ratio_penalty(), 0);
}
