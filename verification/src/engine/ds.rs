//! Data-segment variable offsets of the reference `UK2.EXE`.
//!
//! Each offset is the linear address used by the IDA listing label
//! (`word_2901C`, `byte_28FE9`, ...) less the data segment base, so the
//! engine can be checked line-by-line against the disassembly.
use vstd::prelude::*;

verus! {

/// Linear address of DS:0 in the IDA listing.
pub const DS_LINEAR: u32 = 0x23610;

/// The data-segment offset of a linear listing address.
pub fn l(linear: u32) -> (res: u16)
    requires
        DS_LINEAR <= linear < DS_LINEAR + 0x10000,
    ensures
        res == linear - DS_LINEAR,
{
    (linear - DS_LINEAR) as u16
}


// ---- interpreter -------------------------------------------------------
/// word_271A6: current MES program counter.
pub const MES_PC: u16 = 0x3B96;
/// word_271A8: current MES length.
pub const MES_LEN: u16 = 0x3B98;
/// word_271AA: MES buffer stack depth (bytes used by outer programs).
pub const MES_STACK: u16 = 0x3B9A;
/// word_2716A: last operand numeric width (1 = word, 0 = byte).
pub const OPERAND_WORD: u16 = 0x3B5A;
/// word_2716C: last operand kind (0 = number, 1 = string, 2 = large string).
pub const OPERAND_KIND: u16 = 0x3B5C;
/// word_2716E/word_27170: far pointer to the class-2 local table.
pub const LOCAL_TABLE: u16 = 0x3B5E;
/// dword_29076: current MES record (T0 slots at +0, count at +1A4).
pub const MES_RECORD: u16 = 0x5A66;
/// word_2907E: condition flag of the last L-family test.
pub const COND_FLAG: u16 = 0x5A6E;
/// word_26714: class-0 immediate scratch word.
pub const IMM_SCRATCH: u16 = 0x3104;
/// word_26EE7/word_26EE9: 32-bit expression accumulator (DS:38D7).
pub const ACC_LO: u16 = 0x38D7;
pub const ACC_HI: u16 = 0x38D9;
/// DS:3106 inline string assembly buffer.
pub const INLINE_BUF: u16 = 0x3106;
pub const SYSTEM_WORDS: u16 = 0x3B62;
pub const LARGE_STRINGS: u16 = 0x3B9C;
pub const FIXED_STRINGS: u16 = 0x5312;
pub const INDEXED_8: u16 = 0x56B4;
pub const INDEXED_5: u16 = 0x57B4;
pub const GLOBAL_SLOTS: u16 = 0x5A12;
pub const INDIRECT_TABLE: u16 = 0x2B8;
/// unk_28ECC: current MES name; unk_28EDA: J3/restart MES name.
pub const CUR_MES_NAME: u16 = 0x58BC;
pub const NEXT_MES_NAME: u16 = 0x58CA;
/// word_28FCA: two-character opcodes enabled.
pub const OPCODES_ENABLED: u16 = 0x59BA;
/// word_25DE0: CTRL+GRPH+SHIFT abort request.
pub const ABORT: u16 = 0x27D0;
/// word_23B64: skip interpreter pre-instruction service.
pub const SKIP_SERVICE: u16 = 0x0554;

// ---- window objects -----------------------------------------------------
/// dword_23B72: far pointer to the object pointer array (70 entries).
pub const OBJ_TABLE: u16 = 0x0562;
/// word_2901C: live object count.
pub const OBJ_COUNT: u16 = 0x5A0C;
/// word_23B6E/70: MAKE_WIN.TAB template records, count word_28FEA.
pub const TEMPLATES: u16 = 0x055E;
pub const TEMPLATE_COUNT: u16 = 0x59DA;
/// word_28FF4: id of the top object after the last composition.
pub const TOP_OBJECT: u16 = 0x59E4;
/// byte_28FE9 / byte_28FE8: object the interpreter waits on (W7/WF/WI).
pub const WAIT_OBJECT: u16 = 0x59D9;
pub const WAIT_FLAG: u16 = 0x59D8;
/// word_28FEE: wait mode (0 page wait, 1 WI, 2 released).
pub const WAIT_MODE: u16 = 0x59DE;
/// word_2713E: text finished flag.
pub const TEXT_DONE: u16 = 0x3B2E;
/// word_29006: force redraw of unchanged cells.
pub const FORCE_REDRAW: u16 = 0x59F6;
/// word_2900E: which of the two cell-owner maps is current.
pub const CELL_MAP_SEL: u16 = 0x59FE;
/// DS:59D0: two far pointers to 40x25 cell-owner maps.
pub const CELL_MAPS: u16 = 0x59D0;
pub const W_29008: u16 = 0x59F8;
pub const FRAME_STYLE: u16 = 0x5A00;
pub const W_29004: u16 = 0x59F4;
pub const W_29002: u16 = 0x59F2;
pub const W_29000: u16 = 0x59F0;
pub const W_29012: u16 = 0x5A02;
pub const W_29014: u16 = 0x5A04;
pub const W_29016: u16 = 0x5A06;
pub const W_29018: u16 = 0x5A08;
pub const W_2901A: u16 = 0x5A0A;
pub const W_28FC4: u16 = 0x59B4;
pub const W_28FC6: u16 = 0x59B6;
pub const W_28FCC: u16 = 0x59BC;
pub const W_28FEC: u16 = 0x59DC;
pub const W_28FF0: u16 = 0x59E0;
pub const W_28FF2: u16 = 0x59E2;
pub const W_28FF8: u16 = 0x59E8;
pub const W_28FFA: u16 = 0x59EA;
pub const W_28FFC: u16 = 0x59EC;
pub const W_28FFE: u16 = 0x59EE;
pub const W_2900A: u16 = 0x59FA;
pub const W_2900C: u16 = 0x59FC;
pub const W_27140: u16 = 0x3B30;
pub const W_27144: u16 = 0x3B34;
pub const W_27152: u16 = 0x3B42;
/// word_23A5E: text speed (0 = normal, 1000 = instant).
pub const TEXT_SPEED: u16 = 0x044E;
/// Window frame chip image (win.pdt1) and frame parts (win_disp.pdt1).
pub const WIN_CHIPS: u16 = 0x59CC;
pub const WIN_DISP_CHIPS: u16 = 0x59C4;
/// word_2710A: glyph drawing style.
pub const GLYPH_STYLE: u16 = 0x3AFA;
/// Text colours: word_28FBE shadow, word_28FC0 outline, word_28FC2 body.
pub const TEXT_SHADOW: u16 = 0x59AE;
pub const TEXT_OUTLINE: u16 = 0x59B0;
pub const TEXT_COLOUR: u16 = 0x59B2;
/// word_25D1E: glyph raster op (1..4).
pub const GLYPH_OP: u16 = 0x270E;
/// word_25D20: last glyph was single-byte.
pub const GLYPH_HALF: u16 = 0x2710;
/// far pointer to the half-width font captured from kana.pdt1.
pub const ANK_FONT: u16 = 0x2712;
pub const ANK_FONT_DATA: u16 = 0x5F2A;
/// dword at DS:F2 -> hankaku to zenkaku table.
pub const ZENKAKU_TABLE: u16 = 0x00F2;
/// DS:2716 colour remap used by glyph drawing.
pub const GLYPH_COLOUR_MAP: u16 = 0x2716;

// ---- graphics ------------------------------------------------------------
/// word_29085 display page, word_29083 access page.
pub const DISPLAY_PAGE: u16 = 0x5A75;
pub const ACCESS_PAGE: u16 = 0x5A73;
/// DS:67C current palette, DS:69C + n*32 COLOR.TBL banks.
pub const PALETTE: u16 = 0x67C;
pub const PALETTE_BANKS: u16 = 0x69C;
pub const PALETTE_BANK_COUNT: u16 = 0x07DC;
pub const PALETTE_LOCK: u16 = 0x07DE;
/// word_25DC4: PDT loads copy their palette into bank 1.
pub const PDT_PALETTE: u16 = 0x27B4;
/// word_29F54/52/50/4E: last PDT rectangle (left, right, top, bottom).
pub const PDT_LEFT: u16 = 0x6944;
pub const PDT_RIGHT: u16 = 0x6942;
pub const PDT_TOP: u16 = 0x6940;
pub const PDT_BOTTOM: u16 = 0x693E;
/// unk_23B78: current background PDT name.
pub const BG_NAME: u16 = 0x0568;
/// word_25C54: EMS in use.
pub const EMS_ACTIVE: u16 = 0x2644;
pub const EMS_WANTED: u16 = 0x2646;

// ---- input ---------------------------------------------------------------
pub const MOUSE_X: u16 = 0x26F0;
pub const MOUSE_Y: u16 = 0x26F2;
pub const MOUSE_MIN_X: u16 = 0x26F4;
pub const MOUSE_MAX_X: u16 = 0x26F6;
pub const MOUSE_MIN_Y: u16 = 0x26F8;
pub const MOUSE_MAX_Y: u16 = 0x26FA;
pub const MOUSE_DIV_X: u16 = 0x26FC;
pub const MOUSE_DIV_Y: u16 = 0x26FE;
pub const MOUSE_MUL_X: u16 = 0x2700;
pub const MOUSE_MUL_Y: u16 = 0x2702;
pub const MOUSE_PREV_RIGHT: u16 = 0x270A;
pub const MOUSE_PREV_LEFT: u16 = 0x270C;
/// word_294F7 left held, word_29505 right held.
pub const LEFT_HELD: u16 = 0x5EE7;
pub const RIGHT_HELD: u16 = 0x5EF5;
/// Press/release event counters.
pub const LEFT_PRESSES: u16 = 0x5EE9;
pub const LEFT_RELEASES: u16 = 0x5EEB;
pub const RIGHT_PRESSES: u16 = 0x5EF7;
pub const RIGHT_RELEASES: u16 = 0x5EF9;
pub const LEFT_PRESS_X: u16 = 0x5EED;
pub const LEFT_PRESS_Y: u16 = 0x5EEF;
pub const LEFT_RELEASE_X: u16 = 0x5EF1;
pub const LEFT_RELEASE_Y: u16 = 0x5EF3;
pub const RIGHT_PRESS_X: u16 = 0x5EFB;
pub const RIGHT_PRESS_Y: u16 = 0x5EFD;
pub const RIGHT_RELEASE_X: u16 = 0x5EFF;
pub const RIGHT_RELEASE_Y: u16 = 0x5F01;
/// byte_294F0: event counter lifetime in vsyncs.
pub const EVENT_LIFETIME: u16 = 0x5EE0;
pub const PRESS_TIMER: u16 = 0x5C46;
pub const RELEASE_TIMER: u16 = 0x5C44;
/// word_294F3: software cursor shown; word_25CFE: cursor mode.
pub const CURSOR_SHOWN: u16 = 0x5EE3;
pub const CURSOR_SHOWN2: u16 = 0x5EE1;
pub const CURSOR_MODE: u16 = 0x26EE;
pub const CURSOR_ENABLED: u16 = 0x26EA;
pub const CURSOR_SHAPE: u16 = 0x26EC;
pub const CURSOR_FRAME: u16 = 0x26E8;
pub const CURSOR_FRAMES: u16 = 0x26E6;
pub const CURSOR_ANIM_RATE: u16 = 0x26E4;
pub const CURSOR_ANIM_COUNT: u16 = 0x26DE;
pub const CURSOR_DATA: u16 = 0x83A;
pub const CURSOR_SIZE: u16 = 0x501;
/// DS:6960: key-down table indexed by PC-98 scan code.
pub const KEY_TABLE: u16 = 0x6960;
/// DS:265A: scan code to ASCII table.
pub const KEY_ASCII: u16 = 0x265A;
/// word_25DE4: cursor-key/Return/Space/ESC input enabled.
pub const KEYS_ENABLED: u16 = 0x27D4;

// ---- timers --------------------------------------------------------------
pub const TICKS: u16 = 0x5C4A;
pub const TIMER_A: u16 = 0x5C48;
pub const FRAME_TIMER: u16 = 0x5C42;

// ---- map ----------------------------------------------------------------
pub const ENTITIES: u16 = 0x0550;
pub const ENTITY_COUNT: u16 = 0x054E;
pub const PLAYER: u16 = 0x3B4E;
pub const LAST_MAP: u16 = 0x057A;
pub const INTERACT_ID: u16 = 0x3B2C;
pub const MAP_EVENT: u16 = 0x3B3E;
pub const FRAME_COUNTER: u16 = 0x3B2A;
pub const FRAME_DELAY: u16 = 0x3B28;
pub const MAP_ACTIVE: u16 = 0x3B38;
pub const MAP_CELL_SEL: u16 = 0x3B44;
pub const MAP_CELLS: u16 = 0x3B52;
pub const CHIP_BASE: u16 = 0x3B00;
pub const CHIP_OVERLAY: u16 = 0x3B04;
pub const SHARED_TILES: u16 = 0x3B08;

// ---- files ----------------------------------------------------------------
pub const SAVE_NAMES: u16 = 0x590C;
pub const SAVE_COMMENT: u16 = 0x58E4;
pub const SAVE_DATE: u16 = 0x58D8;
pub const ENTITY_FILE: u16 = 0x3B0C;

} // verus!
