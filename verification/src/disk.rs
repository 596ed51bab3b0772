//! The disk reserve: a write goes ahead only while the filesystems keep the configured
//! reserve and a tenth of their space free.

use vstd::prelude::*;

verus! {

pub const MINIMUM_FREE_BASIS_POINTS: u16 = 1_000;

/// Why a write was refused for lack of disk.
#[derive(Debug, Clone, Copy, PartialEq, Eq, Structural)]
pub enum DiskReserveError {
    InvalidConfig,
    Probe,
    SizeOverflow,
    InsufficientSpace { available: u64, required: u64 },
    InsufficientFreePercentage { available_basis_points: u16, required_basis_points: u16 },
}

pub open spec fn disk_reason(e: DiskReserveError) -> Seq<char> {
    match e {
        DiskReserveError::InvalidConfig => "capture_disk.invalid_config"@,
        DiskReserveError::Probe => "capture_disk.probe"@,
        DiskReserveError::SizeOverflow => "capture_disk.size_overflow"@,
        DiskReserveError::InsufficientSpace { .. } => "capture_disk.insufficient_space"@,
        DiskReserveError::InsufficientFreePercentage { .. } => "capture_disk.insufficient_free_percentage"@,
    }
}

impl DiskReserveError {
    pub fn reason_code(self) -> (r: &'static str)
        ensures
            r@ == disk_reason(self),
    {
        match self {
            DiskReserveError::InvalidConfig => "capture_disk.invalid_config",
            DiskReserveError::Probe => "capture_disk.probe",
            DiskReserveError::SizeOverflow => "capture_disk.size_overflow",
            DiskReserveError::InsufficientSpace { .. } => "capture_disk.insufficient_space",
            DiskReserveError::InsufficientFreePercentage { .. } => "capture_disk.insufficient_free_percentage",
        }
    }
}

/// Reports the free space of the filesystems a writer uses: the least available bytes and
/// the least free share, in basis points, over all of them.
pub trait DiskSpaceProbe {
    fn minimum_available_bytes(&self) -> Result<u64, DiskReserveError>;

    fn minimum_free_basis_points(&self) -> Result<u16, DiskReserveError>;
}

/// Available bytes of one filesystem from its statistics: available blocks times the
/// fragment size (the block size where no fragment size is given).
pub open spec fn available_bytes_of(frsize: u64, bsize: u64, bavail: u64) -> Result<u64, DiskReserveError> {
    let fragment = if frsize == 0 {
        bsize
    } else {
        frsize
    };
    if bavail * fragment > u64::MAX {
        Err(DiskReserveError::SizeOverflow)
    } else {
        Ok((bavail * fragment) as u64)
    }
}

pub fn available_from_statistics(frsize: u64, bsize: u64, bavail: u64) -> (r: Result<
    u64,
    DiskReserveError,
>)
    ensures
        r == available_bytes_of(frsize, bsize, bavail),
{
    let fragment = if frsize == 0 {
        bsize
    } else {
        frsize
    };
    match bavail.checked_mul(fragment) {
        Some(v) => Ok(v),
        None => Err(DiskReserveError::SizeOverflow),
    }
}

/// The free share of one filesystem in basis points, rounded down; a filesystem with no
/// blocks cannot be judged.
pub open spec fn free_basis_points_of(bavail: u64, blocks: u64) -> Result<u16, DiskReserveError> {
    if blocks == 0 {
        Err(DiskReserveError::Probe)
    } else if (bavail * 10_000) / (blocks as int) > u16::MAX {
        Err(DiskReserveError::SizeOverflow)
    } else {
        Ok(((bavail * 10_000) / (blocks as int)) as u16)
    }
}

pub fn free_basis_points_from_statistics(bavail: u64, blocks: u64) -> (r: Result<
    u16,
    DiskReserveError,
>)
    ensures
        r == free_basis_points_of(bavail, blocks),
{
    if blocks == 0 {
        return Err(DiskReserveError::Probe);
    }
    let points: u128 = (bavail as u128) * 10_000 / (blocks as u128);
    if points > u16::MAX as u128 {
        Err(DiskReserveError::SizeOverflow)
    } else {
        Ok(points as u16)
    }
}

/// The first failed reading, in order.
pub open spec fn first_failure<T>(readings: Seq<Result<T, DiskReserveError>>) -> Option<DiskReserveError>
    decreases readings.len(),
{
    if readings.len() == 0 {
        None
    } else {
        match readings[0] {
            Err(e) => Some(e),
            Ok(_) => first_failure(readings.drop_first()),
        }
    }
}

/// The least of the values read, in order (for readings that all succeeded).
pub open spec fn least_value(readings: Seq<Result<u64, DiskReserveError>>) -> u64
    decreases readings.len(),
{
    if readings.len() <= 1 {
        readings[0]->Ok_0
    } else {
        let m = least_value(readings.drop_last());
        let v = readings.last()->Ok_0;
        if v < m {
            v
        } else {
            m
        }
    }
}

/// The least reading over all filesystems: the first failure where one failed,
/// `InvalidConfig` where there is none.
pub open spec fn least_reading(readings: Seq<Result<u64, DiskReserveError>>) -> Result<u64, DiskReserveError> {
    match first_failure(readings) {
        Some(e) => Err(e),
        None => if readings.len() == 0 {
            Err(DiskReserveError::InvalidConfig)
        } else {
            Ok(least_value(readings))
        },
    }
}

/// The least of the per-filesystem readings.
pub fn least_of(readings: &Vec<Result<u64, DiskReserveError>>) -> (r: Result<u64, DiskReserveError>)
    ensures
        r == least_reading(readings@),
{
    let ghost s = readings@;
    let mut best: Option<u64> = None;
    let mut i: usize = 0;
    assert(s.skip(0) =~= s);
    while i < readings.len()
        invariant
            i <= s.len(),
            s == readings@,
            first_failure(s) == first_failure(s.skip(i as int)),
            forall|j: int| 0 <= j < i ==> (#[trigger] s[j]) is Ok,
            i == 0 <==> best is None,
            best matches Some(b) ==> b == least_value(s.take(i as int)),
        decreases s.len() - i,
    {
        assert(s.skip(i as int)[0] == s[i as int]);
        assert(s.skip(i as int).drop_first() =~= s.skip(i + 1));
        match readings[i] {
            Err(e) => {
                return Err(e);
            },
            Ok(v) => {
                let nb = match best {
                    Some(b) => if v < b {
                        v
                    } else {
                        b
                    },
                    None => v,
                };
                proof {
                    assert(s.take(i + 1).drop_last() =~= s.take(i as int));
                    assert(s.take(i + 1).last() == s[i as int]);
                    if i == 0 {
                        assert(s.take(1)[0] == s[0]);
                    }
                }
                best = Some(nb);
            },
        }
        i = i + 1;
    }
    assert(s.skip(s.len() as int).len() == 0);
    match best {
        None => Err(DiskReserveError::InvalidConfig),
        Some(b) => {
            assert(s.take(s.len() as int) =~= s);
            Ok(b)
        },
    }
}

/// What the guard reports of a write it lets through.
#[derive(Debug, Clone, Copy, PartialEq, Eq, Structural)]
pub struct DiskCapacity {
    available_bytes: u64,
    remaining_after_write_bytes: u64,
    free_basis_points: u16,
}

impl DiskCapacity {
    pub closed spec fn spec_available_bytes(self) -> u64 {
        self.available_bytes
    }

    pub closed spec fn spec_remaining_after_write_bytes(self) -> u64 {
        self.remaining_after_write_bytes
    }

    pub closed spec fn spec_free_basis_points(self) -> u16 {
        self.free_basis_points
    }

    pub fn available_bytes(self) -> (r: u64)
        ensures
            r == self.spec_available_bytes(),
    {
        self.available_bytes
    }

    pub fn remaining_after_write_bytes(self) -> (r: u64)
        ensures
            r == self.spec_remaining_after_write_bytes(),
    {
        self.remaining_after_write_bytes
    }

    pub fn free_basis_points(self) -> (r: u16)
        ensures
            r == self.spec_free_basis_points(),
    {
        self.free_basis_points
    }
}

/// The verdict on a write of `anticipated` bytes with `reserve` bytes to keep, given the
/// probe's least available bytes and, where asked, its least free share.
pub open spec fn write_verdict(
    reserve: u64,
    anticipated: u64,
    available: u64,
    free_basis_points: u16,
) -> Result<(u64, u64, u16), DiskReserveError> {
    if reserve + anticipated > u64::MAX {
        Err(DiskReserveError::SizeOverflow)
    } else if available < reserve + anticipated {
        Err(
            DiskReserveError::InsufficientSpace {
                available,
                required: (reserve + anticipated) as u64,
            },
        )
    } else if free_basis_points < MINIMUM_FREE_BASIS_POINTS {
        Err(
            DiskReserveError::InsufficientFreePercentage {
                available_basis_points: free_basis_points,
                required_basis_points: MINIMUM_FREE_BASIS_POINTS,
            },
        )
    } else {
        Ok((available, (available - anticipated) as u64, free_basis_points))
    }
}

/// Refuses writes that would eat into the disk reserve.
#[derive(Debug)]
pub struct DiskReserveGuard<P> {
    probe: P,
    reserve_bytes: u64,
}

impl<P: DiskSpaceProbe> DiskReserveGuard<P> {
    pub closed spec fn spec_reserve_bytes(&self) -> u64 {
        self.reserve_bytes
    }

    pub fn try_new(probe: P, reserve_bytes: u64) -> (r: Result<Self, DiskReserveError>)
        ensures
            reserve_bytes == 0 ==> r is Err && r->Err_0 == DiskReserveError::InvalidConfig,
            reserve_bytes > 0 ==> (r matches Ok(g) && g.spec_reserve_bytes() == reserve_bytes),
    {
        if reserve_bytes == 0 {
            return Err(DiskReserveError::InvalidConfig);
        }
        Ok(DiskReserveGuard { probe, reserve_bytes })
    }

    /// Decides a write from the probe's readings: the reserve plus the write must fit in
    /// the available bytes, then a tenth of the disk must stay free.
    pub fn decide(reserve: u64, anticipated: u64, available: u64, free_basis_points: u16) -> (r:
        Result<DiskCapacity, DiskReserveError>)
        ensures
            match write_verdict(reserve, anticipated, available, free_basis_points) {
                Ok((a, rem, bp)) => r matches Ok(c) && c.spec_available_bytes() == a
                    && c.spec_remaining_after_write_bytes() == rem && c.spec_free_basis_points()
                    == bp,
                Err(e) => r == Err::<DiskCapacity, DiskReserveError>(e),
            },
    {
        let required = match reserve.checked_add(anticipated) {
            Some(v) => v,
            None => {
                return Err(DiskReserveError::SizeOverflow);
            },
        };
        if available < required {
            return Err(DiskReserveError::InsufficientSpace { available, required });
        }
        if free_basis_points < MINIMUM_FREE_BASIS_POINTS {
            return Err(
                DiskReserveError::InsufficientFreePercentage {
                    available_basis_points: free_basis_points,
                    required_basis_points: MINIMUM_FREE_BASIS_POINTS,
                },
            );
        }
        Ok(
            DiskCapacity {
                available_bytes: available,
                remaining_after_write_bytes: available - anticipated,
                free_basis_points,
            },
        )
    }

    /// Asks the probe and decides a write of `anticipated_write_bytes`. The probe's readings
    /// decide: an accepted write is the verdict of [`Self::decide`] on the reserve, the write
    /// and the readings it reports, so it leaves the reserve and a tenth of the disk free; a
    /// reserve and write whose sum overflows is refused whatever the probe reports.
    pub fn ensure_write(&self, anticipated_write_bytes: u64) -> (r: Result<
        DiskCapacity,
        DiskReserveError,
    >)
        ensures
            r matches Ok(c) ==> write_verdict(
                self.spec_reserve_bytes(),
                anticipated_write_bytes,
                c.spec_available_bytes(),
                c.spec_free_basis_points(),
            ) == Ok::<(u64, u64, u16), DiskReserveError>(
                (c.spec_available_bytes(), c.spec_remaining_after_write_bytes(), c.spec_free_basis_points()),
            ),
            self.spec_reserve_bytes() + anticipated_write_bytes > u64::MAX ==> r is Err,
            r matches Ok(c) ==> c.spec_available_bytes() >= self.spec_reserve_bytes()
                + anticipated_write_bytes && c.spec_remaining_after_write_bytes()
                == c.spec_available_bytes() - anticipated_write_bytes && c.spec_free_basis_points()
                >= MINIMUM_FREE_BASIS_POINTS,
    {
        let available = self.probe.minimum_available_bytes()?;
        let required = match self.reserve_bytes.checked_add(anticipated_write_bytes) {
            Some(v) => v,
            None => {
                return Err(DiskReserveError::SizeOverflow);
            },
        };
        if available < required {
            return Err(DiskReserveError::InsufficientSpace { available, required });
        }
        let free = self.probe.minimum_free_basis_points()?;
        Self::decide(self.reserve_bytes, anticipated_write_bytes, available, free)
    }
}

} // verus!
