//! The rules of the ingestion that need no file and no store: which entries
//! of a walk go on to be read, and when the rows that wait for the store are
//! written.

use crate::satellite::{Satellite, Sector};
use crate::scan_time::ScanTime;
use crate::text::matches_at;
use vstd::prelude::*;
use vstd::string::StringSliceAdditionalSpecFns;

verus! {

/// The number of items that wait between two stages at most.
pub const CHANNEL_CAPACITY: usize = 8;

/// The number of workers that read images.
pub const NUM_LOADER_THREADS: u8 = 4;

/// The number of rows from which on the rows that wait are written.
pub const BUFFER_CAPACITY: usize = 100_000;

/// The path ends in a file name with the extension `ext`: a dot stands before
/// `ext`, and the dot is not the first byte of the file name.
pub open spec fn has_extension(path: Seq<u8>, ext: Seq<u8>) -> bool {
    let dot = path.len() - ext.len() - 1;
    &&& dot >= 1
    &&& path[dot] == 46
    &&& path[dot - 1] != 47
    &&& path.subrange(dot + 1, path.len() as int) == ext
}

/// The bytes `nc`.
pub open spec fn nc() -> Seq<u8> {
    seq!['n' as u8, 'c' as u8]
}

/// The bytes `zip`.
pub open spec fn zip() -> Seq<u8> {
    seq!['z' as u8, 'i' as u8, 'p' as u8]
}

/// The path is that of a data file: its extension is `nc` or `zip`.
pub open spec fn is_data_file(path: Seq<u8>) -> bool {
    has_extension(path, nc()) || has_extension(path, zip())
}

fn ends_with_extension(path: &[u8], ext: &[u8]) -> (r: bool)
    ensures
        r == has_extension(path@, ext@),
{
    if path.len() < ext.len() || path.len() - ext.len() < 2 {
        return false;
    }
    let dot = path.len() - ext.len() - 1;
    if path[dot] != 46 || path[dot - 1] == 47 {
        return false;
    }
    matches_at(path, ext, dot + 1)
}

/// Tells whether a path is that of a data file.
pub fn has_data_extension(path: &str) -> (r: bool)
    ensures
        r == is_data_file(path.spec_bytes()),
{
    let bytes = path.as_bytes();
    let nc_bytes: [u8; 2] = ['n' as u8, 'c' as u8];
    let zip_bytes: [u8; 3] = ['z' as u8, 'i' as u8, 'p' as u8];
    assert(nc_bytes@ =~= nc());
    assert(zip_bytes@ =~= zip());
    ends_with_extension(bytes, nc_bytes.as_slice()) || ends_with_extension(
        bytes,
        zip_bytes.as_slice(),
    )
}

/// Tells whether the walk passes an entry on: only a regular file that is a
/// data file.
pub fn forwards(is_file: bool, path: &str) -> (r: bool)
    ensures
        r == (is_file && is_data_file(path.spec_bytes())),
{
    is_file && has_data_extension(path)
}

/// Tells whether an image is to be read: its name must say what it is, and
/// the store must hold no cluster of it. `described` is what the name says,
/// and `in_store` the answer of the store for it; for a name that says too
/// little the store is not asked, and its answer does not count.
pub fn is_new_image(described: Option<(Satellite, Sector, ScanTime, ScanTime)>, in_store: bool) -> (r:
    bool)
    ensures
        r == (described is Some && !in_store),
{
    described.is_some() && !in_store
}

/// Rows that wait to be written to the store together.
pub struct InsertBuffer<T> {
    rows: Vec<T>,
}

impl<T> View for InsertBuffer<T> {
    type V = Seq<T>;

    closed spec fn view(&self) -> Seq<T> {
        self.rows@
    }
}

impl<T> InsertBuffer<T> {
    /// A buffer in which no row waits.
    pub fn new() -> (r: InsertBuffer<T>)
        ensures
            r@ == Seq::<T>::empty(),
    {
        InsertBuffer { rows: Vec::new() }
    }

    /// The number of rows that wait.
    pub fn len(&self) -> (r: usize)
        ensures
            r == self@.len(),
    {
        self.rows.len()
    }

    /// Tells whether no row waits.
    pub fn is_empty(&self) -> (r: bool)
        ensures
            r == (self@.len() == 0),
    {
        self.rows.len() == 0
    }

    /// Lets a row wait, and tells whether the rows are now so many that they
    /// are to be written.
    pub fn add(&mut self, row: T) -> (flush: bool)
        ensures
            final(self)@ == old(self)@.push(row),
            flush == (final(self)@.len() >= BUFFER_CAPACITY),
    {
        self.rows.push(row);
        self.rows.len() >= BUFFER_CAPACITY
    }

    /// Hands out the rows that wait, in the order in which they came, and
    /// leaves the buffer empty.
    pub fn take_batch(&mut self) -> (batch: Vec<T>)
        ensures
            batch@ == old(self)@,
            final(self)@ == Seq::<T>::empty(),
    {
        let mut batch: Vec<T> = Vec::new();
        core::mem::swap(&mut self.rows, &mut batch);
        batch
    }
}

} // verus!
