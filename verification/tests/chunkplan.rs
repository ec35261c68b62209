use gemgame::chunkplan::{ChunkPlan, TileCategory};

/// Builds a plan from rows drawn top to bottom, where `#` marks dirt.
fn plan_from(rows: &[&str]) -> ChunkPlan {
    let mut plan = ChunkPlan::new();
    let height = rows.len() as i32;
    for (r, row) in rows.iter().enumerate() {
        let y = height - 1 - r as i32;
        for (x, c) in row.chars().enumerate() {
            if c == '#' {
                plan.set_category_at(x as i32, y, TileCategory::Dirt);
            }
        }
    }
    plan
}

/// Checks that the plan matches rows drawn top to bottom, where `#` marks dirt.
fn assert_plan(plan: &ChunkPlan, rows: &[&str]) {
    let height = rows.len() as i32;
    for (r, row) in rows.iter().enumerate() {
        let y = height - 1 - r as i32;
        for (x, c) in row.chars().enumerate() {
            let expected = if c == '#' { TileCategory::Dirt } else { TileCategory::Grass };
            assert_eq!(plan.get_category_at(x as i32, y), expected, "tile at ({}, {})", x, y);
        }
    }
}

fn cleaned(rows: &[&str]) -> ChunkPlan {
    let mut plan = plan_from(rows);
    plan.remove_juttting_and_unconnected_tiles();
    plan
}

#[test]
fn remove_jutting_tiles() {
    assert_plan(&cleaned(&["..##", ".###", "..##"]), &["..##", "..##", "..##"]);
    assert_plan(&cleaned(&["...##", ".####", "...##"]), &["...##", "...##", "...##"]);
    assert_plan(&cleaned(&["..##", ".###", ".###", "..##"]), &["..##", ".###", ".###", "..##"]);
}

#[test]
fn remove_unconnected_tiles() {
    // Not allowed:
    assert_plan(&cleaned(&["...", ".#.", "..."]), &["...", "...", "..."]);
    assert_plan(&cleaned(&["....", ".##.", "...."]), &["....", "....", "...."]);
    assert_plan(&cleaned(&["....", ".##.", ".#..", "...."]), &["....", "....", "....", "...."]);
    // Allowed:
    assert_plan(&cleaned(&["....", ".##.", ".##.", "...."]), &["....", ".##.", ".##.", "...."]);
}

#[test]
fn new_plan_is_all_grass() {
    let plan = ChunkPlan::new();
    assert_eq!(plan.get_category_at(0, 0), TileCategory::Grass);
    assert_eq!(plan.get_category_at(-1, 17), TileCategory::Grass);
    assert_eq!(TileCategory::default(), TileCategory::Grass);
}

#[test]
fn set_then_get_category() {
    let mut plan = ChunkPlan::new();
    plan.set_category_at(3, -1, TileCategory::Water);
    plan.set_category_at(i32::MIN, i32::MAX, TileCategory::Dirt);
    assert_eq!(plan.get_category_at(3, -1), TileCategory::Water);
    assert_eq!(plan.get_category_at(i32::MIN, i32::MAX), TileCategory::Dirt);
    assert_eq!(plan.get_category_at(-1, 3), TileCategory::Grass);
    plan.set_category_at(3, -1, TileCategory::Grass);
    assert_eq!(plan.get_category_at(3, -1), TileCategory::Grass);
}

#[test]
fn cleanup_keeps_categories_apart() {
    // A dirt square next to a water line: the water line juts out on its own and goes.
    let mut plan = ChunkPlan::new();
    for x in 0..2 {
        for y in 0..2 {
            plan.set_category_at(x, y, TileCategory::Dirt);
        }
    }
    plan.set_category_at(2, 0, TileCategory::Water);
    plan.set_category_at(3, 0, TileCategory::Water);
    plan.remove_juttting_and_unconnected_tiles();
    assert_eq!(plan.get_category_at(0, 0), TileCategory::Dirt);
    assert_eq!(plan.get_category_at(1, 1), TileCategory::Dirt);
    assert_eq!(plan.get_category_at(2, 0), TileCategory::Grass);
    assert_eq!(plan.get_category_at(3, 0), TileCategory::Grass);
}

#[test]
fn cleanup_keeps_a_ring() {
    // A 3x3 ring of water (hole in the middle) is well connected.
    let mut plan = ChunkPlan::new();
    for x in 0..3 {
        for y in 0..3 {
            if !(x == 1 && y == 1) {
                plan.set_category_at(x, y, TileCategory::Water);
            }
        }
    }
    plan.remove_juttting_and_unconnected_tiles();
    for x in 0..3 {
        for y in 0..3 {
            let expected = if x == 1 && y == 1 { TileCategory::Grass } else { TileCategory::Water };
            assert_eq!(plan.get_category_at(x, y), expected);
        }
    }
}
