//! The text form of each identifier: its fields in decimal (the Morton code
//! of an `Index64` in twelve hexadecimal digits), in the layout that
//! `format!` would give them.

use vstd::prelude::*;
use crate::id::{cell_frame, cell_resolution, cell_x, cell_y, cell_z, CellID};
use crate::ids::{
    gal_frame, gal_lod, gal_scale_mant, gal_scale_tier, gal_x, gal_y, gal_z, idx_code, idx_frame, idx_lod, idx_tier,
    route_x, route_y, route_z, Galactic128, Index64, Route64,
};
use crate::morton::deinterleave;
use crate::text::{decimal, hex_digits, push_decimal, push_hex, push_signed, push_text, signed_decimal};

verus! {

/// `G128(f=<frame>, t=<tier>:<mantissa>, lod=<lod>, <x>,<y>,<z>)`.
pub open spec fn galactic_text(v: u128) -> Seq<char> {
    "G128(f="@ + decimal(gal_frame(v) as nat) + ", t="@ + decimal(gal_scale_tier(v) as nat) + ":"@ + decimal(
        gal_scale_mant(v) as nat,
    ) + ", lod="@ + decimal(gal_lod(v) as nat) + ", "@ + signed_decimal(gal_x(v) as int) + ","@ + signed_decimal(
        gal_y(v) as int,
    ) + ","@ + signed_decimal(gal_z(v) as int) + ")"@
}

/// `I64(f=<frame>, t=<tier>, lod=<lod>, morton=<12 hex digits>, <x>,<y>,<z>)`,
/// with the coordinates decoded from the Morton code.
pub open spec fn index_text(v: u64) -> Seq<char> {
    let c = deinterleave(idx_code(v) as nat, 16);
    "I64(f="@ + decimal(idx_frame(v) as nat) + ", t="@ + decimal(idx_tier(v) as nat) + ", lod="@ + decimal(
        idx_lod(v) as nat,
    ) + ", morton="@ + hex_digits(idx_code(v) as nat, 12) + ", "@ + decimal(c.0) + ","@ + decimal(c.1) + ","@
        + decimal(c.2) + ")"@
}

/// `R64(t=<tier>, <x>,<y>,<z>)`.
pub open spec fn route_text(v: u64) -> Seq<char> {
    "R64(t="@ + decimal(idx_tier(v) as nat) + ", "@ + signed_decimal(route_x(v) as int) + ","@ + signed_decimal(
        route_y(v) as int,
    ) + ","@ + signed_decimal(route_z(v) as int) + ")"@
}

/// `CellID(frame=<frame>, res=<resolution>, x=<x>, y=<y>, z=<z>)`.
pub open spec fn cell_text(v: u128) -> Seq<char> {
    "CellID(frame="@ + decimal(cell_frame(v) as nat) + ", res="@ + decimal(cell_resolution(v) as nat) + ", x="@
        + signed_decimal(cell_x(v) as int) + ", y="@ + signed_decimal(cell_y(v) as int) + ", z="@ + signed_decimal(
        cell_z(v) as int,
    ) + ")"@
}

impl Galactic128 {
    /// The identifier as text.
    pub fn to_string(&self) -> (s: String)
        ensures
            s@ == galactic_text(self@),
    {
        let mut s = String::new();
        push_text(&mut s, "G128(f=");
        push_decimal(&mut s, self.frame_id() as u64);
        push_text(&mut s, ", t=");
        push_decimal(&mut s, self.scale_tier() as u64);
        push_text(&mut s, ":");
        push_decimal(&mut s, self.scale_mant() as u64);
        push_text(&mut s, ", lod=");
        push_decimal(&mut s, self.lod() as u64);
        push_text(&mut s, ", ");
        push_signed(&mut s, self.x() as i64);
        push_text(&mut s, ",");
        push_signed(&mut s, self.y() as i64);
        push_text(&mut s, ",");
        push_signed(&mut s, self.z() as i64);
        push_text(&mut s, ")");
        assert(s@ =~= galactic_text(self@));
        s
    }
}

impl Index64 {
    /// The identifier as text.
    pub fn to_string(&self) -> (s: String)
        ensures
            s@ == index_text(self@),
    {
        let (x, y, z) = self.decode_coords();
        let mut s = String::new();
        push_text(&mut s, "I64(f=");
        push_decimal(&mut s, self.frame_id() as u64);
        push_text(&mut s, ", t=");
        push_decimal(&mut s, self.scale_tier() as u64);
        push_text(&mut s, ", lod=");
        push_decimal(&mut s, self.lod() as u64);
        push_text(&mut s, ", morton=");
        push_hex(&mut s, self.morton(), 12);
        push_text(&mut s, ", ");
        push_decimal(&mut s, x as u64);
        push_text(&mut s, ",");
        push_decimal(&mut s, y as u64);
        push_text(&mut s, ",");
        push_decimal(&mut s, z as u64);
        push_text(&mut s, ")");
        assert(s@ =~= index_text(self@));
        s
    }
}

impl Route64 {
    /// The identifier as text.
    pub fn to_string(&self) -> (s: String)
        ensures
            s@ == route_text(self@),
    {
        let mut s = String::new();
        push_text(&mut s, "R64(t=");
        push_decimal(&mut s, self.scale_tier() as u64);
        push_text(&mut s, ", ");
        push_signed(&mut s, self.x() as i64);
        push_text(&mut s, ",");
        push_signed(&mut s, self.y() as i64);
        push_text(&mut s, ",");
        push_signed(&mut s, self.z() as i64);
        push_text(&mut s, ")");
        assert(s@ =~= route_text(self@));
        s
    }
}

impl CellID {
    /// The identifier as text.
    pub fn to_string(&self) -> (s: String)
        ensures
            s@ == cell_text(self@),
    {
        let mut s = String::new();
        push_text(&mut s, "CellID(frame=");
        push_decimal(&mut s, self.frame() as u64);
        push_text(&mut s, ", res=");
        push_decimal(&mut s, self.resolution() as u64);
        push_text(&mut s, ", x=");
        push_signed(&mut s, self.x() as i64);
        push_text(&mut s, ", y=");
        push_signed(&mut s, self.y() as i64);
        push_text(&mut s, ", z=");
        push_signed(&mut s, self.z() as i64);
        push_text(&mut s, ")");
        assert(s@ =~= cell_text(self@));
        s
    }
}

} // verus!
