use subsurface::enemies::{ship_cells, GridCell, COLOR_SHIP};
use subsurface::pixels::PixelGrid;

#[test]
fn ships_stand_on_red_pixels_column_by_column() {
    let blank = vec![0u8, 0, 0, 0xff];
    let ship = COLOR_SHIP.to_vec();
    // Row-major 3 x 2 image:
    //   ship  blank ship
    //   blank ship  ship
    let pixels = vec![
        ship.clone(),
        blank.clone(),
        ship.clone(),
        blank.clone(),
        ship.clone(),
        ship.clone(),
    ];
    let g = PixelGrid::new(3, 2, pixels).unwrap();
    assert_eq!(
        ship_cells(&g),
        vec![
            GridCell { x: 0, y: 0 },
            GridCell { x: 1, y: 1 },
            GridCell { x: 2, y: 0 },
            GridCell { x: 2, y: 1 },
        ]
    );
}

#[test]
fn no_red_no_ships() {
    let g = PixelGrid::new(2, 1, vec![vec![0xbe, 0x0b, 0x19, 0xfe], vec![0xbe, 0x0b, 0x19]]).unwrap();
    assert!(ship_cells(&g).is_empty());
}
