use hexworld::cell::{Cell, CellType};
use hexworld::dice::Dice;
use hexworld::grid::{HexPos, World};
use hexworld::hex::get_neighbors;
use hexworld::river::{
    carve_river, contains_position, generate_river, next_step, scan_candidates, spring_river,
    unvisited_neighbors, Scan, Step, Walk, WalkEnd, MAX_CLIMB, SOURCE_ODDS,
};

fn cell(cell_type: CellType, altitude: u32) -> Cell {
    Cell { cell_type, altitude, relative_altitude: altitude % 1000 }
}

fn at(x: u64, y: u64) -> HexPos {
    HexPos { x, y }
}

/// A 3 by 3 map of grass at `around` with the given centre and one special
/// cell at column 0 of row 1, which is the western neighbour of the centre.
fn three_by_three(centre: Cell, west: Cell, around: u32) -> (World, Vec<Cell>) {
    let mut cells = vec![cell(CellType::Grass, around); 9];
    cells[4] = centre;
    cells[3] = west;
    (World::new(3, 3, cells.clone()).unwrap(), cells)
}

/// A map of the given terrain whose altitude is a fixed scramble of the
/// position, between 0.3 and 0.7.
fn rugged(width: u32, height: u32, cell_type: CellType, salt: u32) -> (World, Vec<Cell>) {
    let mut cells = Vec::new();
    for row in 0..height {
        for col in 0..width {
            let mixed = (col.wrapping_mul(7919) ^ row.wrapping_mul(104_729) ^ salt)
                .wrapping_mul(2_654_435_761);
            cells.push(cell(cell_type, 300_000 + mixed % 400_000));
        }
    }
    (World::new(width, height, cells.clone()).unwrap(), cells)
}

fn adjacent(p: HexPos, q: HexPos) -> bool {
    let dx = q.x as i64 - p.x as i64;
    let dy = q.y as i64 - p.y as i64;
    (dy == 0 && dx.abs() == 2) || (dy.abs() == 1 && dx.abs() == 1)
}

/// Checks everything that must hold of a walk, whatever the dice gave.
fn check_walk(before: &[Cell], width: u32, height: u32, start: HexPos, walk: &Walk) {
    let map = World::new(width, height, before.to_vec()).unwrap();
    let path = &walk.path;
    assert!(!path.is_empty());
    assert_eq!(path[0], start);
    assert!(path.len() <= (width * height) as usize);
    for (i, p) in path.iter().enumerate() {
        assert!(map.holds(*p));
        assert_eq!(p.x % 2, p.y % 2);
        assert!(!path[..i].contains(p));
    }
    for pair in path.windows(2) {
        assert!(!map.cell_at(pair[1]).cell_type.water());
        assert!(adjacent(pair[0], pair[1]));
        assert_eq!(get_neighbors(&map, pair[0].x, pair[0].y).len(), 6);
        assert!(map.cell_at(pair[1]).altitude <= map.cell_at(pair[0]).altitude + MAX_CLIMB);
    }
    let last = *path.last().unwrap();
    let around = get_neighbors(&map, last.x, last.y);
    let fresh: Vec<HexPos> = around.iter().filter(|q| !path.contains(q)).cloned().collect();
    match walk.end {
        WalkEnd::Edge => assert!(around.len() < 6),
        WalkEnd::DeadEnd => {
            assert_eq!(around.len(), 6);
            assert!(fresh.is_empty());
        },
        WalkEnd::Water => {
            assert_eq!(around.len(), 6);
            assert!(fresh.iter().any(|q| map.cell_at(*q).cell_type.water()));
        },
        WalkEnd::Climb => {
            assert_eq!(around.len(), 6);
            assert!(fresh
                .iter()
                .any(|q| map.cell_at(*q).altitude > map.cell_at(last).altitude + MAX_CLIMB));
        },
    }
}

/// Checks that `after` is `before` with the cells under the path as river.
fn check_carved(before: &[Cell], after: &World, path: &[HexPos]) {
    let width = after.width() as usize;
    for (i, was) in before.iter().enumerate() {
        let p = after.position((i % width) as u32, (i / width) as u32);
        let now = after.cells()[i];
        assert_eq!(now.altitude, was.altitude);
        assert_eq!(now.relative_altitude, was.relative_altitude);
        if path.contains(&p) {
            assert_eq!(now.cell_type, CellType::River);
        } else {
            assert_eq!(now.cell_type, was.cell_type);
        }
    }
}

#[test]
fn constants_of_the_carver() {
    assert_eq!(MAX_CLIMB, 40_000);
    assert_eq!(SOURCE_ODDS, 1250);
}

#[test]
fn scan_stops_at_water_that_comes_first() {
    let (map, _) = three_by_three(
        cell(CellType::Mountain, 790_000),
        cell(CellType::DeepWater, 400_000),
        100_000,
    );
    let order = vec![at(1, 1), at(5, 1), at(2, 0)];
    assert_eq!(scan_candidates(&map, &order), Scan::Water);
    assert_eq!(next_step(&map, at(3, 1), &order), Step::Stop(WalkEnd::Water));
}

#[test]
fn scan_stops_at_water_that_is_lower_than_the_first_candidate() {
    let (map, _) = three_by_three(
        cell(CellType::Mountain, 790_000),
        cell(CellType::DeepWater, 400_000),
        500_000,
    );
    let order = vec![at(5, 1), at(1, 1), at(2, 0)];
    assert_eq!(scan_candidates(&map, &order), Scan::Water);
    assert_eq!(next_step(&map, at(3, 1), &order), Step::Stop(WalkEnd::Water));
    let order = vec![at(5, 1), at(4, 0), at(2, 0), at(2, 2), at(4, 2), at(1, 1)];
    assert_eq!(scan_candidates(&map, &order), Scan::Water);
}

#[test]
fn scan_takes_a_lower_candidate_that_comes_before_the_water() {
    let mut cells = vec![cell(CellType::Grass, 500_000); 9];
    cells[4] = cell(CellType::Mountain, 790_000);
    cells[3] = cell(CellType::DeepWater, 300_000);
    cells[1] = cell(CellType::Grass, 450_000);
    let map = World::new(3, 3, cells).unwrap();
    let order = vec![at(5, 1), at(2, 0), at(1, 1)];
    assert_eq!(scan_candidates(&map, &order), Scan::Next(at(2, 0)));
    let order = vec![at(5, 1), at(1, 1), at(2, 0)];
    assert_eq!(scan_candidates(&map, &order), Scan::Water);
    let order = vec![at(1, 1), at(2, 0)];
    assert_eq!(scan_candidates(&map, &order), Scan::Water);
}

#[test]
fn scan_stops_at_water_that_is_not_lower() {
    let (map, _) = three_by_three(
        cell(CellType::Mountain, 790_000),
        cell(CellType::Lake, 500_000),
        500_000,
    );
    let order = vec![at(5, 1), at(4, 0), at(1, 1), at(2, 0)];
    assert_eq!(scan_candidates(&map, &order), Scan::Water);
    for water in [CellType::Lake, CellType::Water, CellType::ShallowWater, CellType::MediumWater] {
        let (map, _) = three_by_three(cell(CellType::Mountain, 790_000), cell(water, 600_000), 500_000);
        assert_eq!(scan_candidates(&map, &order), Scan::Water);
    }
    for dry in [CellType::River, CellType::Ice, CellType::Sand, CellType::Snow] {
        let (map, _) = three_by_three(cell(CellType::Mountain, 790_000), cell(dry, 600_000), 500_000);
        assert_eq!(scan_candidates(&map, &order), Scan::Next(at(5, 1)));
    }
}

#[test]
fn scan_takes_the_first_lower_candidate_not_the_lowest() {
    let mut cells = vec![cell(CellType::Grass, 500_000); 9];
    cells[5] = cell(CellType::Grass, 600_000);
    cells[2] = cell(CellType::Grass, 550_000);
    cells[1] = cell(CellType::Grass, 100_000);
    let map = World::new(3, 3, cells).unwrap();
    let order = vec![at(5, 1), at(4, 0), at(2, 0)];
    assert_eq!(scan_candidates(&map, &order), Scan::Next(at(4, 0)));
    let order = vec![at(5, 1), at(2, 0), at(4, 0)];
    assert_eq!(scan_candidates(&map, &order), Scan::Next(at(2, 0)));
    let order = vec![at(2, 0), at(4, 0), at(5, 1)];
    assert_eq!(scan_candidates(&map, &order), Scan::Next(at(2, 0)));
    let order = vec![at(4, 0), at(5, 1)];
    assert_eq!(scan_candidates(&map, &order), Scan::Next(at(4, 0)));
}

#[test]
fn scan_of_equal_candidates_takes_the_first() {
    let (map, _) = rugged(3, 3, CellType::Grass, 0);
    let flat = World::new(3, 3, vec![cell(CellType::Grass, 500_000); 9]).unwrap();
    let order = vec![at(2, 2), at(4, 2), at(5, 1)];
    assert_eq!(scan_candidates(&flat, &order), Scan::Next(at(2, 2)));
    let one = vec![at(4, 2)];
    assert_eq!(scan_candidates(&map, &one), Scan::Next(at(4, 2)));
}

#[test]
fn a_step_may_climb_forty_thousand_and_no_more() {
    let mut cells = vec![cell(CellType::Grass, 540_000); 9];
    cells[4] = cell(CellType::Mountain, 500_000);
    let map = World::new(3, 3, cells.clone()).unwrap();
    let order = vec![at(5, 1), at(4, 0)];
    assert_eq!(next_step(&map, at(3, 1), &order), Step::Advance(at(5, 1)));
    cells[5] = cell(CellType::Grass, 540_001);
    let map = World::new(3, 3, cells.clone()).unwrap();
    assert_eq!(next_step(&map, at(3, 1), &vec![at(5, 1)]), Step::Stop(WalkEnd::Climb));
    assert_eq!(next_step(&map, at(3, 1), &order), Step::Advance(at(4, 0)));
    let order = vec![at(4, 0), at(5, 1)];
    assert_eq!(next_step(&map, at(3, 1), &order), Step::Advance(at(4, 0)));
    cells[2] = cell(CellType::Grass, 540_001);
    let map = World::new(3, 3, cells.clone()).unwrap();
    assert_eq!(next_step(&map, at(3, 1), &order), Step::Stop(WalkEnd::Climb));
}

#[test]
fn the_climb_is_measured_without_overflow() {
    let mut cells = vec![cell(CellType::Grass, u32::MAX); 9];
    cells[4] = cell(CellType::Mountain, u32::MAX - 10);
    let map = World::new(3, 3, cells).unwrap();
    assert_eq!(next_step(&map, at(3, 1), &vec![at(5, 1)]), Step::Advance(at(5, 1)));
}

#[test]
fn contains_position_finds_what_is_there() {
    let positions = vec![at(1, 1), at(3, 1), at(2, 2)];
    assert!(contains_position(&positions, at(1, 1)));
    assert!(contains_position(&positions, at(2, 2)));
    assert!(!contains_position(&positions, at(2, 0)));
    assert!(!contains_position(&positions, at(1, 3)));
    assert!(!contains_position(&vec![], at(0, 0)));
}

#[test]
fn unvisited_neighbours_keep_their_order() {
    let (map, _) = rugged(3, 3, CellType::Grass, 1);
    let all = vec![at(5, 1), at(4, 0), at(2, 0), at(1, 1), at(2, 2), at(4, 2)];
    assert_eq!(unvisited_neighbors(&map, at(3, 1), &vec![]), all);
    assert_eq!(unvisited_neighbors(&map, at(3, 1), &vec![at(3, 1)]), all);
    assert_eq!(
        unvisited_neighbors(&map, at(3, 1), &vec![at(2, 0), at(3, 1), at(5, 1)]),
        vec![at(4, 0), at(1, 1), at(2, 2), at(4, 2)]
    );
    assert_eq!(unvisited_neighbors(&map, at(3, 1), &all), vec![]);
    assert_eq!(unvisited_neighbors(&map, at(0, 0), &vec![at(1, 1)]), vec![at(2, 0)]);
}

#[test]
fn mountain_beside_deep_water_stops_after_one_step() {
    for seed in 0..40u64 {
        let (mut map, before) = three_by_three(
            cell(CellType::Mountain, 790_000),
            cell(CellType::DeepWater, 400_000),
            300_000,
        );
        let mut dice = Dice::new(seed);
        let walk = carve_river(&mut map, 1, 1, &mut dice);
        assert_eq!(walk.path, vec![at(3, 1)]);
        assert_eq!(walk.end, WalkEnd::Water);
        assert_eq!(
            map.cell(1, 1),
            Cell { cell_type: CellType::River, altitude: 790_000, relative_altitude: 0 }
        );
        assert_eq!(map.cell(0, 1), before[3]);
        assert_eq!(map.cell(0, 1).cell_type, CellType::DeepWater);
        check_carved(&before, &map, &walk.path);
        check_walk(&before, 3, 3, at(3, 1), &walk);
    }
}

#[test]
fn a_walk_beside_lower_water_spares_it() {
    for (water, around) in [(400_000, 500_000), (300_000, 700_000), (100_000, 790_000)] {
        for seed in 0..40u64 {
            let (mut map, before) = three_by_three(
                cell(CellType::Mountain, 790_000),
                cell(CellType::DeepWater, water),
                around,
            );
            let mut dice = Dice::new(seed);
            let walk = carve_river(&mut map, 1, 1, &mut dice);
            assert_eq!(walk.path, vec![at(3, 1)]);
            assert_eq!(walk.end, WalkEnd::Water);
            assert_eq!(map.cell(0, 1), before[3]);
            let rivers = map.cells().iter().filter(|c| c.cell_type == CellType::River).count();
            assert_eq!(rivers, 1);
            check_carved(&before, &map, &walk.path);
            check_walk(&before, 3, 3, at(3, 1), &walk);
        }
    }
}

#[test]
fn a_mountain_with_deep_water_to_its_east_becomes_the_only_river() {
    for seed in 0..60u64 {
        let mut cells = vec![cell(CellType::Grass, 700_000); 9];
        cells[4] = cell(CellType::Mountain, 790_000);
        cells[5] = cell(CellType::DeepWater, 300_000);
        let mut map = World::new(3, 3, cells.clone()).unwrap();
        let river = spring_river(&mut map, 1, 1, true, &mut Dice::new(seed));
        assert_eq!(river, Some(Walk { path: vec![at(3, 1)], end: WalkEnd::Water }));
        for (i, was) in cells.iter().enumerate() {
            let now = map.cells()[i];
            if i == 4 {
                assert_eq!(now, Cell { cell_type: CellType::River, ..*was });
            } else {
                assert_eq!(now, *was);
            }
        }
        assert_eq!(map.cell(2, 1).cell_type, CellType::DeepWater);
    }
}

/// A map of mountains with water strewn in, at scrambled altitudes.
fn lakeland(width: u32, height: u32, salt: u32) -> (World, Vec<Cell>) {
    let waters = [
        CellType::Lake,
        CellType::Water,
        CellType::ShallowWater,
        CellType::MediumWater,
        CellType::DeepWater,
    ];
    let (_, mut cells) = rugged(width, height, CellType::Mountain, salt);
    for (i, c) in cells.iter_mut().enumerate() {
        if c.altitude % 7 == 0 {
            c.cell_type = waters[i % 5];
        }
    }
    (World::new(width, height, cells.clone()).unwrap(), cells)
}

#[test]
fn rivers_never_turn_water_into_river() {
    for seed in 0..20u32 {
        let (mut map, before) = lakeland(24, 20, seed);
        let mut dice = Dice::new(seed as u64);
        let mut sprung = 0;
        for row in 0..20 {
            for col in 0..24 {
                if let Some(walk) = spring_river(&mut map, col, row, true, &mut dice) {
                    sprung += 1;
                    for p in &walk.path {
                        assert!(!before[(p.y * 24 + p.x / 2) as usize].cell_type.water());
                    }
                }
            }
        }
        assert!(sprung > 50);
        for (now, was) in map.cells().iter().zip(before.iter()) {
            if was.cell_type.water() {
                assert_eq!(now, was);
            } else {
                assert_eq!(now.cell_type, CellType::River);
            }
        }
    }
}

#[test]
fn a_pass_never_turns_water_into_river() {
    let mut carved = 0;
    for seed in 0..30u64 {
        let (mut map, before) = lakeland(60, 50, seed as u32);
        let rivers = generate_river(&mut map, &mut Dice::new(seed));
        for walk in &rivers {
            carved += walk.path.len();
        }
        for (now, was) in map.cells().iter().zip(before.iter()) {
            if was.cell_type.water() {
                assert_eq!(now, was);
            }
        }
    }
    assert!(carved > 20);
}

#[test]
fn a_walk_from_the_rim_ends_at_once() {
    for (col, row) in [(0, 0), (2, 0), (0, 2), (2, 2), (1, 0), (0, 1), (2, 1), (1, 2)] {
        let (mut map, before) = rugged(3, 3, CellType::Mountain, 5);
        let mut dice = Dice::new(9);
        let start = map.position(col, row);
        let walk = carve_river(&mut map, col, row, &mut dice);
        assert_eq!(walk.path, vec![start]);
        assert_eq!(walk.end, WalkEnd::Edge);
        check_carved(&before, &map, &walk.path);
    }
}

#[test]
fn a_walk_in_a_pit_ends_for_the_climb() {
    for seed in 0..20u64 {
        let (mut map, before) = three_by_three(
            cell(CellType::Cliff, 500_000),
            cell(CellType::Grass, 900_000),
            900_000,
        );
        let mut dice = Dice::new(seed);
        let walk = carve_river(&mut map, 1, 1, &mut dice);
        assert_eq!(walk.path, vec![at(3, 1)]);
        assert_eq!(walk.end, WalkEnd::Climb);
        check_carved(&before, &map, &walk.path);
        check_walk(&before, 3, 3, at(3, 1), &walk);
    }
}

#[test]
fn a_walk_goes_to_the_one_lower_neighbour() {
    for seed in 0..20u64 {
        let (mut map, before) = three_by_three(
            cell(CellType::Mountain, 790_000),
            cell(CellType::Grass, 700_000),
            800_000,
        );
        let mut dice = Dice::new(seed);
        let walk = carve_river(&mut map, 1, 1, &mut dice);
        assert_eq!(walk.path, vec![at(3, 1), at(1, 1)]);
        assert_eq!(walk.end, WalkEnd::Edge);
        check_carved(&before, &map, &walk.path);
        check_walk(&before, 3, 3, at(3, 1), &walk);
    }
}

#[test]
fn walks_never_return_and_stay_within_the_number_of_cells() {
    let mut ends = Vec::new();
    let mut longest = 0;
    for seed in 0..120u32 {
        let (width, height) = (6 + seed % 5, 5 + seed % 7);
        let (mut map, before) = rugged(width, height, CellType::Mountain, seed);
        let (col, row) = (1 + seed % (width - 2), 1 + (seed / 3) % (height - 2));
        let mut dice = Dice::new(seed as u64);
        let start = map.position(col, row);
        let walk = carve_river(&mut map, col, row, &mut dice);
        check_walk(&before, width, height, start, &walk);
        check_carved(&before, &map, &walk.path);
        longest = longest.max(walk.path.len());
        if !ends.contains(&walk.end) {
            ends.push(walk.end);
        }
    }
    assert!(longest >= 3);
    assert!(ends.contains(&WalkEnd::Edge));
    assert!(ends.contains(&WalkEnd::Climb));
}

#[test]
fn walks_on_a_plain_wander_to_the_rim_or_into_a_dead_end() {
    for seed in 0..60u64 {
        let cells = vec![cell(CellType::Mountain, 790_000); 81];
        let mut map = World::new(9, 9, cells.clone()).unwrap();
        let mut dice = Dice::new(seed);
        let walk = carve_river(&mut map, 4, 4, &mut dice);
        assert!(walk.end == WalkEnd::Edge || walk.end == WalkEnd::DeadEnd);
        assert!(walk.path.len() >= 4);
        check_walk(&cells, 9, 9, at(8, 4), &walk);
        check_carved(&cells, &map, &walk.path);
    }
}

#[test]
fn walks_end_beside_water() {
    for seed in 0..30u64 {
        let mut cells = vec![cell(CellType::Mountain, 790_000); 49];
        for i in 0..49 {
            if i % 5 == 0 {
                cells[i] = cell(CellType::Lake, 790_000);
            }
        }
        cells[24] = cell(CellType::Mountain, 790_000);
        let mut map = World::new(7, 7, cells.clone()).unwrap();
        let mut dice = Dice::new(seed);
        let walk = carve_river(&mut map, 3, 3, &mut dice);
        assert_eq!(walk.end, WalkEnd::Water);
        assert_eq!(walk.path, vec![at(7, 3)]);
        check_walk(&cells, 7, 7, at(7, 3), &walk);
        check_carved(&cells, &map, &walk.path);
    }
}

#[test]
fn a_pass_over_land_without_sources_changes_nothing() {
    for t in [CellType::Snow, CellType::Grass, CellType::DeepWater, CellType::River, CellType::Lake] {
        let (mut map, before) = rugged(20, 20, t, 3);
        let mut dice = Dice::new(11);
        let rivers = generate_river(&mut map, &mut dice);
        assert!(rivers.is_empty());
        assert_eq!(map.cells(), &before);
    }
}

#[test]
fn a_pass_over_nothing_changes_nothing() {
    let mut map = World::new(0, 0, vec![]).unwrap();
    let rivers = generate_river(&mut map, &mut Dice::new(1));
    assert!(rivers.is_empty());
    let mut map = World::new(5, 0, vec![]).unwrap();
    let rivers = generate_river(&mut map, &mut Dice::new(1));
    assert!(rivers.is_empty());
    assert_eq!((map.width(), map.height()), (5, 0));
}

#[test]
fn a_pass_carves_its_rivers_one_after_the_other() {
    let mut total = 0;
    for seed in 0..30u64 {
        let (mut map, before) = rugged(60, 50, CellType::Cliff, seed as u32);
        let mut dice = Dice::new(seed);
        let rivers = generate_river(&mut map, &mut dice);
        total += rivers.len();
        let mut so_far = before.clone();
        let mut last_start = None;
        for walk in &rivers {
            let start = walk.path[0];
            let index = (start.y * 60 + start.x / 2) as usize;
            assert!(last_start < Some(index));
            last_start = Some(index);
            assert_eq!(so_far[index].cell_type, CellType::Cliff);
            check_walk(&so_far, 60, 50, start, walk);
            for p in &walk.path {
                so_far[(p.y * 60 + p.x / 2) as usize].cell_type = CellType::River;
            }
        }
        assert_eq!(map.cells(), &so_far);
        assert_eq!((map.width(), map.height()), (60, 50));
    }
    assert!(total > 30 && total < 150);
}

#[test]
fn every_kind_of_high_relief_is_a_source() {
    for t in [
        CellType::Cliff,
        CellType::MediumCliff,
        CellType::Mountain,
        CellType::MediumMountain,
        CellType::HighMountain,
    ] {
        let mut total = 0;
        for seed in 0..20u64 {
            let (mut map, _) = rugged(50, 50, t, 8);
            total += generate_river(&mut map, &mut Dice::new(seed)).len();
        }
        assert!(total > 10);
    }
}

#[test]
fn a_pass_with_the_same_seed_carves_the_same_rivers() {
    for seed in [0u64, 1, 42, 1_000_003] {
        let (mut first, _) = rugged(70, 70, CellType::Mountain, 2);
        let (mut second, _) = rugged(70, 70, CellType::Mountain, 2);
        let a = generate_river(&mut first, &mut Dice::new(seed));
        let b = generate_river(&mut second, &mut Dice::new(seed));
        assert_eq!(a.len(), b.len());
        for (x, y) in a.iter().zip(b.iter()) {
            assert_eq!(x.path, y.path);
            assert_eq!(x.end, y.end);
        }
        assert_eq!(first.cells(), second.cells());
    }
}

#[test]
fn a_forced_draw_on_a_mountain_beside_deep_water_carves_the_mountain_only() {
    for seed in 0..40u64 {
        let (mut map, before) = three_by_three(
            cell(CellType::Mountain, 790_000),
            cell(CellType::DeepWater, 400_000),
            300_000,
        );
        let river = spring_river(&mut map, 1, 1, true, &mut Dice::new(seed));
        assert_eq!(river, Some(Walk { path: vec![at(3, 1)], end: WalkEnd::Water }));
        assert_eq!(map.cell(1, 1).cell_type, CellType::River);
        assert_eq!(map.cell(0, 1), before[3]);
        check_carved(&before, &map, &[at(3, 1)]);
    }
}

#[test]
fn no_river_springs_without_the_draw() {
    for t in [
        CellType::Cliff,
        CellType::MediumCliff,
        CellType::Mountain,
        CellType::MediumMountain,
        CellType::HighMountain,
        CellType::Snow,
        CellType::DeepWater,
    ] {
        let (mut map, before) = rugged(5, 5, t, 4);
        assert_eq!(spring_river(&mut map, 2, 2, false, &mut Dice::new(1)), None);
        assert_eq!(map.cells(), &before);
    }
}

#[test]
fn no_river_springs_where_the_land_is_no_source() {
    for t in [
        CellType::Grass,
        CellType::Dirt,
        CellType::Tree,
        CellType::River,
        CellType::Water,
        CellType::MediumWater,
        CellType::DeepWater,
        CellType::Sand,
        CellType::Snow,
        CellType::Tundra,
        CellType::ShallowWater,
        CellType::Ice,
        CellType::Lake,
    ] {
        let (mut map, before) = rugged(5, 5, t, 4);
        assert_eq!(spring_river(&mut map, 2, 2, true, &mut Dice::new(1)), None);
        assert_eq!(map.cells(), &before);
    }
}

#[test]
fn a_river_springs_on_every_kind_of_high_relief_when_drawn() {
    for t in [
        CellType::Cliff,
        CellType::MediumCliff,
        CellType::Mountain,
        CellType::MediumMountain,
        CellType::HighMountain,
    ] {
        for seed in 0..10u64 {
            let (mut map, before) = rugged(7, 6, t, seed as u32);
            let walk = spring_river(&mut map, 3, 2, true, &mut Dice::new(seed)).unwrap();
            assert_eq!(walk.path[0], at(6, 2));
            assert_eq!(map.cell(3, 2).cell_type, CellType::River);
            check_walk(&before, 7, 6, at(6, 2), &walk);
            check_carved(&before, &map, &walk.path);
        }
    }
}
