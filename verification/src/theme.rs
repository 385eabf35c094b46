//! The style context of measurement: integer layout-unit constants the
//! measurement pass reads.

use vstd::prelude::*;

verus! {

/// The measurement constants of the document style: the base font
/// size, the width reserved by a quoted region's indent band, the
/// spacing before and after list markers, and the height of a
/// horizontal rule. All in layout units.
#[derive(Clone, Copy, PartialEq, Eq, Structural, Debug)]
pub struct Theme {
    pub text_size: u64,
    pub indentation_decoration_width: u64,
    pub bullet_list_indentation: u64,
    pub numbered_list_indentation: u64,
    pub list_after_indentation: u64,
    pub rule_height: u64,
}

/// The stock theme.
pub open spec fn spec_default_theme() -> Theme {
    Theme {
        text_size: 16,
        indentation_decoration_width: 20,
        bullet_list_indentation: 10,
        numbered_list_indentation: 10,
        list_after_indentation: 8,
        rule_height: 2,
    }
}

/// Returns the stock theme.
pub fn get_theme() -> (r: Theme)
    ensures
        r == spec_default_theme(),
{
    Theme {
        text_size: 16,
        indentation_decoration_width: 20,
        bullet_list_indentation: 10,
        numbered_list_indentation: 10,
        list_after_indentation: 8,
        rule_height: 2,
    }
}

/// The font size multiplier of a heading level, in eighths of the base
/// size: level 1 is 17/8 of the base size down to level 6 at 8/8.
pub open spec fn spec_heading_mult_eighths(level: u8) -> u64 {
    if level == 1 {
        17
    } else if level == 2 {
        15
    } else if level == 3 {
        12
    } else if level == 4 {
        10
    } else if level == 5 {
        9
    } else {
        8
    }
}

/// A base size scaled by a multiplier, saturating at the machine word.
pub open spec fn spec_scaled(size: u64, mult: u64) -> u64 {
    if size * mult > u64::MAX {
        u64::MAX
    } else {
        (size * mult) as u64
    }
}

/// Executable scaling matching `spec_scaled`.
pub fn scaled_u64(size: u64, mult: u64) -> (r: u64)
    ensures
        r == spec_scaled(size, mult),
{
    proof {
        assert((size as u128) * (mult as u128) < 0x1_0000_0000_0000_0000_0000_0000_0000_0000)
            by (nonlinear_arith)
            requires
                size <= 0xFFFF_FFFF_FFFF_FFFFu64 && mult <= 0xFFFF_FFFF_FFFF_FFFFu64,
        ;
    }
    let wide: u128 = (size as u128) * (mult as u128);
    if wide > u64::MAX as u128 {
        u64::MAX
    } else {
        wide as u64
    }
}

/// Executable heading multiplier matching `spec_heading_mult_eighths`.
pub fn heading_mult_eighths(level: u8) -> (r: u64)
    ensures
        r == spec_heading_mult_eighths(level),
{
    if level == 1 {
        17
    } else if level == 2 {
        15
    } else if level == 3 {
        12
    } else if level == 4 {
        10
    } else if level == 5 {
        9
    } else {
        8
    }
}

} // verus!
