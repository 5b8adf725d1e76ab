use subsurface::level::{level_tiles, TileKind, TileSpawn, COLOR_AIR, COLOR_ROCK, COLOR_WATER};
use subsurface::pixels::{is_color, PixelGrid};

const OTHER: [u8; 4] = [0x10, 0x20, 0x30, 0xff];

fn grid(width: u32, height: u32, rows: &[&[[u8; 4]]]) -> PixelGrid {
    let mut pixels = Vec::new();
    for row in rows {
        for p in row.iter() {
            pixels.push(p.to_vec());
        }
    }
    PixelGrid::new(width, height, pixels).expect("pixel count matches")
}

fn t(kind: TileKind, x: u32, y: u32) -> TileSpawn {
    TileSpawn { kind, x, y }
}

#[test]
fn grid_rejects_wrong_pixel_count() {
    assert!(PixelGrid::new(2, 2, vec![vec![0u8; 4]; 3]).is_none());
    assert!(PixelGrid::new(2, 2, vec![vec![0u8; 4]; 5]).is_none());
    assert!(PixelGrid::new(0, 7, vec![]).is_some());
}

#[test]
fn grid_pixels_are_row_major() {
    let g = grid(2, 2, &[&[COLOR_AIR, COLOR_ROCK], &[COLOR_WATER, OTHER]]);
    assert_eq!(g.width(), 2);
    assert_eq!(g.height(), 2);
    assert_eq!(g.pixel(1, 0), &COLOR_ROCK.to_vec());
    assert_eq!(g.pixel(0, 1), &COLOR_WATER.to_vec());
    assert_eq!(g.pixel(1, 1), &OTHER.to_vec());
}

#[test]
fn colour_match_needs_all_four_bytes() {
    assert!(is_color(&COLOR_ROCK.to_vec(), &COLOR_ROCK));
    assert!(!is_color(&vec![0xa7, 0x64, 0x01], &COLOR_ROCK));
    assert!(!is_color(&vec![0xa7, 0x64, 0x01, 0xff, 0x00], &COLOR_ROCK));
    assert!(!is_color(&vec![0xa7, 0x64, 0x02, 0xff], &COLOR_ROCK));
}

#[test]
fn surface_lies_under_air_and_rock_becomes_squares() {
    let g = grid(
        3,
        3,
        &[
            &[COLOR_AIR, COLOR_AIR, COLOR_AIR],
            &[COLOR_WATER, COLOR_WATER, COLOR_WATER],
            &[COLOR_ROCK, COLOR_WATER, COLOR_ROCK],
        ],
    );
    let tiles = level_tiles(&g);
    assert_eq!(
        tiles,
        vec![
            t(TileKind::Surface, 0, 1),
            t(TileKind::Rock, 0, 2),
            t(TileKind::Surface, 1, 1),
            t(TileKind::Surface, 2, 1),
            t(TileKind::Rock, 2, 2),
        ]
    );
}

#[test]
fn water_on_rock_gets_slopes_towards_rock_neighbours() {
    let g = grid(
        3,
        2,
        &[&[COLOR_ROCK, COLOR_WATER, COLOR_ROCK], &[COLOR_ROCK, COLOR_ROCK, COLOR_ROCK]],
    );
    let tiles = level_tiles(&g);
    assert_eq!(
        tiles,
        vec![
            t(TileKind::Rock, 0, 0),
            t(TileKind::Rock, 0, 1),
            t(TileKind::RockSlopeRight, 1, 0),
            t(TileKind::RockSlopeLeft, 1, 0),
            t(TileKind::Rock, 1, 1),
            t(TileKind::Rock, 2, 0),
            t(TileKind::Rock, 2, 1),
        ]
    );
}

#[test]
fn slopes_need_rock_below() {
    // Rock on both sides, but water below: no slope.
    let g = grid(
        3,
        2,
        &[&[COLOR_ROCK, COLOR_WATER, COLOR_ROCK], &[COLOR_WATER, COLOR_WATER, COLOR_WATER]],
    );
    let tiles = level_tiles(&g);
    assert_eq!(tiles, vec![t(TileKind::Rock, 0, 0), t(TileKind::Rock, 2, 0)]);
}

#[test]
fn slope_only_on_the_rock_side_and_not_at_the_image_edge() {
    // Column 0 is water resting on rock with rock to its right; there is no
    // column to its left.
    let g = grid(2, 2, &[&[COLOR_WATER, COLOR_ROCK], &[COLOR_ROCK, OTHER]]);
    let tiles = level_tiles(&g);
    assert_eq!(
        tiles,
        vec![t(TileKind::RockSlopeRight, 0, 0), t(TileKind::Rock, 0, 1), t(TileKind::Rock, 1, 0)]
    );
}

#[test]
fn water_in_the_top_row_has_no_surface() {
    let g = grid(1, 2, &[&[COLOR_WATER], &[COLOR_WATER]]);
    assert!(level_tiles(&g).is_empty());
}

#[test]
fn surface_needs_air_directly_above() {
    let g = grid(1, 3, &[&[COLOR_AIR], &[OTHER], &[COLOR_WATER]]);
    assert!(level_tiles(&g).is_empty());
}

#[test]
fn other_colours_and_other_pixel_sizes_spawn_nothing() {
    let pixels = vec![vec![0xa7, 0x64, 0x01], OTHER.to_vec(), vec![]];
    let g = PixelGrid::new(3, 1, pixels).unwrap();
    assert!(level_tiles(&g).is_empty());
}

#[test]
fn empty_image_has_no_tiles() {
    let g = PixelGrid::new(0, 0, vec![]).unwrap();
    assert!(level_tiles(&g).is_empty());
}
