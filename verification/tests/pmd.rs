use uk2::engine::pmd::fm_block_calc;

#[test]
fn block_calc_moves_octaves() {
    let (mut cx, mut ax) = (0x2000u16, 0x26a * 2 + 5);
    fm_block_calc(&mut cx, &mut ax);
    assert_eq!((cx, ax), (0x2800, 0x26a + 5));
    let (mut cx, mut ax) = (0x2000u16, 0x200);
    fm_block_calc(&mut cx, &mut ax);
    assert_eq!((cx, ax), (0x1800, 0x46a));
}

#[test]
fn block_calc_clamps_at_the_octave_ends() {
    let (mut cx, mut ax) = (0x3800u16, 0x900);
    fm_block_calc(&mut cx, &mut ax);
    assert_eq!((cx, ax), (0x3800, 0x7ff));
    let (mut cx, mut ax) = (0x0000u16, 0x100);
    fm_block_calc(&mut cx, &mut ax);
    assert_eq!((cx, ax), (0, 0x100));
    let (mut cx, mut ax) = (0x0000u16, 0xfff0);
    fm_block_calc(&mut cx, &mut ax);
    assert_eq!((cx, ax), (0, 8));
    let (mut cx, mut ax) = (0x1000u16, 0x300);
    fm_block_calc(&mut cx, &mut ax);
    assert_eq!((cx, ax), (0x1000, 0x300));
}
