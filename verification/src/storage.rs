//! A minimal owner-controlled storage record: three numeric slots that are
//! written together and read back individually.

use vstd::prelude::*;

verus! {

/// Three numeric storage slots.
pub struct MyStorage {
    pub x: u64,
    pub y: u64,
    pub z: u64,
}

impl MyStorage {
    /// A fresh record; newly created storage starts zeroed.
    pub fn initialize() -> (r: MyStorage)
        ensures
            r.x == 0,
            r.y == 0,
            r.z == 0,
    {
        MyStorage { x: 0, y: 0, z: 0 }
    }

    /// Overwrites all three slots in one step.
    pub fn set(&mut self, new_x: u64, new_y: u64, new_z: u64)
        ensures
            final(self).x == new_x,
            final(self).y == new_y,
            final(self).z == new_z,
    {
        self.x = new_x;
        self.y = new_y;
        self.z = new_z;
    }

    /// Reads the first slot back, the value a caller reports.
    pub fn print_x(&self) -> (r: u64)
        ensures
            r == self.x,
    {
        self.x
    }
}

} // verus!
