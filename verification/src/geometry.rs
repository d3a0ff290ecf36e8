//! Geometry of a rectangular LED grid: the description of the target device
//! and the mapping between linear LED indices and grid coordinates.
//!
//! Rows are stored top-to-bottom in device order while `y` is measured
//! bottom-up, so a linear index `i` maps to
//! `(x, y) = (i % width, height - 1 - i / width)`.

use vstd::arithmetic::div_mod::{
    lemma_fundamental_div_mod, lemma_multiply_divide_lt,
};
use vstd::prelude::*;

verus! {

/// A grid coordinate: `x` grows to the right, `y` grows upward.
#[derive(Clone, Copy, PartialEq, Eq, Structural, Debug)]
pub struct Point {
    pub x: usize,
    pub y: usize,
}

/// The matrix layout of a zone, where the device reports one.
#[derive(Clone, Copy, PartialEq, Eq, Structural, Debug)]
pub struct MatrixLayout {
    pub columns: usize,
    pub rows: usize,
}

/// One zone of a lighting device, as reported by the device: a name, a LED
/// count, and an optional matrix layout.
#[derive(Debug)]
pub struct ZoneInfo {
    pub name: String,
    pub leds_count: u32,
    pub matrix: Option<MatrixLayout>,
}

/// Why a device description could not be turned into a usable grid.
#[derive(Clone, Copy, PartialEq, Eq, Structural, Debug)]
pub enum DeviceError {
    /// No zone of the requested name exists on the device.
    ZoneNotFound,
    /// The zone's matrix layout does not cover exactly its LED count.
    MatrixMismatch,
    /// The zone has no LEDs at all.
    EmptyZone,
    /// The number of LED names differs from the zone's LED count.
    LedCountMismatch,
    /// The device reports more zones than a zone id can address.
    TooManyZones,
}

/// The target device: one zone of one controller, laid out as a
/// `width x height` grid of `total_leds` LEDs with a name per LED.
#[derive(Debug)]
pub struct ControllerInfo {
    pub id: u32,
    pub zone_id: u32,

    pub width: usize,
    pub height: usize,

    pub center_x: usize,
    pub center_y: usize,

    pub total_leds: usize,

    pub led_names: Vec<String>,
}

/// Index of the first zone carrying the requested name, if any.
pub open spec fn spec_find_zone(zones: Seq<ZoneInfo>, name: Seq<char>) -> Option<int>
    decreases zones.len(),
{
    if zones.len() == 0 {
        None
    } else if zones[0].name@ == name {
        Some(0)
    } else {
        match spec_find_zone(zones.skip(1), name) {
            Some(i) => Some(i + 1),
            None => None,
        }
    }
}

/// The grid dimensions a zone describes: its matrix layout where present,
/// otherwise a single row of all its LEDs.
pub open spec fn spec_zone_dims(z: ZoneInfo) -> (int, int) {
    match z.matrix {
        Some(m) => (m.columns as int, m.rows as int),
        None => (z.leds_count as int, 1),
    }
}

impl ControllerInfo {
    /// A well-formed grid: positive dimensions that cover the LED count
    /// exactly, one name per LED, and the center at half the extent.
    pub open spec fn wf(self) -> bool {
        &&& self.width >= 1
        &&& self.height >= 1
        &&& self.total_leds >= 1
        &&& self.total_leds == self.width * self.height
        &&& self.led_names.len() == self.total_leds
        &&& self.center_x == self.width / 2
        &&& self.center_y == self.height / 2
    }

    /// Builds the grid description for the zone called `zone_name`.
    ///
    /// Succeeds exactly when such a zone exists, its matrix layout (where
    /// present) covers its LED count, the zone is non-empty, and one LED
    /// name was supplied per LED.
    pub fn new(zones: &Vec<ZoneInfo>, led_names: Vec<String>, id: u32, zone_name: &String) -> (r:
        Result<ControllerInfo, DeviceError>)
        ensures
            match r {
                Ok(ci) => {
                    &&& spec_find_zone(zones@, zone_name@) is Some
                    &&& {
                        let zi = spec_find_zone(zones@, zone_name@)->Some_0;
                        let z = zones@[zi];
                        let (w, h) = spec_zone_dims(z);
                        &&& zi <= u32::MAX
                        &&& ci.id == id
                        &&& ci.zone_id == zi
                        &&& ci.width == w
                        &&& ci.height == h
                        &&& ci.total_leds == z.leds_count
                        &&& w * h == z.leds_count
                        &&& z.leds_count > 0
                        &&& ci.led_names == led_names
                        &&& ci.wf()
                    }
                },
                Err(e) => {
                    match spec_find_zone(zones@, zone_name@) {
                        None => e == DeviceError::ZoneNotFound,
                        Some(zi) => {
                            let z = zones@[zi];
                            let (w, h) = spec_zone_dims(z);
                            if zi > u32::MAX {
                                e == DeviceError::TooManyZones
                            } else if w * h != z.leds_count {
                                e == DeviceError::MatrixMismatch
                            } else if z.leds_count == 0 {
                                e == DeviceError::EmptyZone
                            } else {
                                &&& e == DeviceError::LedCountMismatch
                                &&& led_names.len() != z.leds_count
                            }
                        },
                    }
                },
            },
    {
        let mut zi: usize = 0;
        assert(zones@.skip(0) =~= zones@);
        loop
            invariant_except_break
                zi <= zones.len(),
                spec_find_zone(zones@, zone_name@) == match spec_find_zone(
                    zones@.skip(zi as int),
                    zone_name@,
                ) {
                    Some(i) => Some(i + zi),
                    None => None::<int>,
                },
            ensures
                zi < zones.len(),
                spec_find_zone(zones@, zone_name@) == Some(zi as int),
            decreases zones.len() - zi,
        {
            if zi == zones.len() {
                assert(spec_find_zone(zones@.skip(zi as int), zone_name@) is None);
                return Err(DeviceError::ZoneNotFound);
            }
            assert(zones@.skip(zi as int)[0] == zones@[zi as int]);
            assert(zones@.skip(zi as int).skip(1) =~= zones@.skip(zi as int + 1));
            assert(spec_find_zone(zones@.skip(zi as int), zone_name@) == if zones@[zi as int].name@
                == zone_name@ {
                Some(0int)
            } else {
                match spec_find_zone(zones@.skip(zi as int + 1), zone_name@) {
                    Some(i) => Some(i + 1),
                    None => None::<int>,
                }
            });
            if zones[zi].name == *zone_name {
                break ;
            }
            zi = zi + 1;
        }
        if zi > u32::MAX as usize {
            return Err(DeviceError::TooManyZones);
        }
        let zone = &zones[zi];
        let total_leds = zone.leds_count as usize;
        let (width, height): (usize, usize) = match &zone.matrix {
            Some(m) => {
                let prod = m.columns.checked_mul(m.rows);
                if prod.is_none() || prod.unwrap() != total_leds {
                    return Err(DeviceError::MatrixMismatch);
                }
                (m.columns, m.rows)
            },
            None => (total_leds, 1),
        };
        if total_leds == 0 {
            return Err(DeviceError::EmptyZone);
        }
        if led_names.len() != total_leds {
            return Err(DeviceError::LedCountMismatch);
        }
        assert(width >= 1 && height >= 1) by (nonlinear_arith)
            requires
                width * height == total_leds,
                total_leds > 0,
        ;
        Ok(
            ControllerInfo {
                id,
                zone_id: zi as u32,
                width,
                height,
                center_x: width / 2,
                center_y: height / 2,
                total_leds,
                led_names,
            },
        )
    }

    /// The name of every LED, in device order.
    pub fn leds(&self) -> (r: &Vec<String>)
        ensures
            r == self.led_names,
    {
        &self.led_names
    }

    /// The grid coordinate a clamped linear index maps to.
    pub open spec fn spec_num2xy(self, index: int) -> Point {
        let nc = if index >= self.total_leds {
            self.total_leds - 1
        } else {
            index
        };
        let row = nc / (self.width as int);
        Point { x: (nc - row * self.width) as usize, y: (self.height - 1 - row) as usize }
    }

    /// The linear index a grid coordinate maps to.
    pub open spec fn spec_xy2num(self, p: Point) -> int {
        (self.height - 1 - p.y) * self.width + p.x
    }

    /// Maps a linear LED index to its grid coordinate. An out-of-range
    /// index is clamped to the last LED rather than rejected, so malformed
    /// device metadata can never fault the engine.
    pub fn num2xy(&self, index: usize) -> (p: Point)
        requires
            self.wf(),
        ensures
            p == self.spec_num2xy(index as int),
            p.x < self.width,
            p.y < self.height,
    {
        let nc = if index >= self.total_leds {
            self.total_leds - 1
        } else {
            index
        };
        proof {
            assert(nc < self.width * self.height) by (nonlinear_arith)
                requires
                    nc < self.total_leds,
                    self.total_leds == self.width * self.height,
            ;
            lemma_multiply_divide_lt(nc as int, self.width as int, self.height as int);
            lemma_fundamental_div_mod(nc as int, self.width as int);
            vstd::arithmetic::div_mod::lemma_div_pos_is_pos(nc as int, self.width as int);
            vstd::arithmetic::div_mod::lemma_mod_bound(nc as int, self.width as int);
            vstd::arithmetic::mul::lemma_mul_is_commutative(
                nc as int / self.width as int,
                self.width as int,
            );
        }
        let row = nc / self.width;
        Point { x: nc - row * self.width, y: self.height - 1 - row }
    }

    /// Maps an in-range grid coordinate back to its linear LED index.
    pub fn xy2num(&self, p: &Point) -> (index: usize)
        requires
            self.wf(),
            p.x < self.width,
            p.y < self.height,
        ensures
            index == self.spec_xy2num(*p),
            index < self.total_leds,
    {
        proof {
            assert((self.height - 1 - p.y) * self.width + p.x < self.width * self.height)
                by (nonlinear_arith)
                requires
                    p.x < self.width,
                    p.y < self.height,
                    self.width >= 1,
                    self.height >= 1,
            ;
        }
        (self.height - 1 - p.y) * self.width + p.x
    }
}

/// Round trip from index to coordinate: for every in-range linear index,
/// mapping it to its grid coordinate and back yields the same index.
pub proof fn lemma_xy_roundtrip(ci: ControllerInfo, index: int)
    requires
        ci.wf(),
        0 <= index < ci.total_leds,
    ensures
        ci.spec_xy2num(ci.spec_num2xy(index)) == index,
{
    let w = ci.width as int;
    let h = ci.height as int;
    assert(index < w * h);
    lemma_multiply_divide_lt(index, w, h);
    lemma_fundamental_div_mod(index, w);
    vstd::arithmetic::div_mod::lemma_div_pos_is_pos(index, w);
    let row = index / w;
    let p = ci.spec_num2xy(index);
    assert(p.x == index - row * w);
    assert(p.y == h - 1 - row);
    assert(ci.spec_xy2num(p) == (h - 1 - (h - 1 - row)) * w + (index - row * w));
    assert((h - 1 - (h - 1 - row)) * w == row * w) by (nonlinear_arith)
        requires
            0 <= row < h,
    ;
    assert(row * w == w * row) by (nonlinear_arith);
}

/// Round trip from coordinate to index: for every in-range grid coordinate,
/// mapping it to its linear index and back yields the same coordinate.
pub proof fn lemma_num_roundtrip(ci: ControllerInfo, p: Point)
    requires
        ci.wf(),
        p.x < ci.width,
        p.y < ci.height,
    ensures
        ci.spec_num2xy(ci.spec_xy2num(p)) == p,
{
    let w = ci.width as int;
    let h = ci.height as int;
    let row = h - 1 - p.y;
    let index = row * w + p.x;
    assert(index < w * h && 0 <= index) by (nonlinear_arith)
        requires
            0 <= row < h,
            0 <= p.x < w,
            index == row * w + p.x,
            w >= 1,
    ;
    assert(index / w == row && index % w == p.x) by {
        vstd::arithmetic::div_mod::lemma_fundamental_div_mod_converse(index, w, row, p.x as int);
    }
    lemma_fundamental_div_mod(index, w);
}

} // verus!
