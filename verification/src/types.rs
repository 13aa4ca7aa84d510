//! Types that specify what is contained in a ZIP.
use vstd::prelude::*;

use crate::compression::CompressionMethod;
use crate::path::{is_enclosed, sanitize, sanitized, stays_enclosed};

verus! {

/// The bit of a unix mode that marks a directory.
pub const S_IFDIR: u32 = 0o040000;

/// The bit of a unix mode that marks a regular file.
pub const S_IFREG: u32 = 0o100000;

/// The system that the attributes of an entry are meant for.
#[derive(Clone, Copy, Debug, PartialEq, Eq, Structural)]
pub enum System {
    Dos,
    Unix,
    Unknown,
    __Nonexhaustive,
}

/// The system with the given number.
pub open spec fn system_of(code: u8) -> System {
    if code == 0 {
        System::Dos
    } else if code == 3 {
        System::Unix
    } else {
        System::Unknown
    }
}

impl System {
    /// The number of this system.
    pub open spec fn code(self) -> u16 {
        match self {
            System::Dos => 0,
            System::Unix => 3,
            System::Unknown => 4,
            System::__Nonexhaustive => 5,
        }
    }

    /// The system with the given number; `Unknown` for all but two.
    pub fn from_u8(system: u8) -> (r: System)
        ensures
            r == system_of(system),
    {
        match system {
            0 => System::Dos,
            3 => System::Unix,
            _ => System::Unknown,
        }
    }

    /// The number of this system.
    pub fn to_u16(self) -> (r: u16)
        ensures
            r == self.code(),
    {
        match self {
            System::Dos => 0,
            System::Unix => 3,
            System::Unknown => 4,
            System::__Nonexhaustive => 5,
        }
    }
}

/// A date and a time of day, with nothing said of whether there is such a day.
#[derive(Clone, Copy, Debug, PartialEq, Eq, Structural)]
pub struct CivilDateTime {
    pub year: i32,
    pub month: u8,
    pub day: u8,
    pub hour: u8,
    pub minute: u8,
    pub second: u8,
}

/// Whether a year of the Gregorian calendar is a leap year.
pub open spec fn is_leap_year(year: int) -> bool {
    year % 4 == 0 && (year % 100 != 0 || year % 400 == 0)
}

/// The number of days of a month.
pub open spec fn days_in_month(year: int, month: int) -> int {
    if month == 2 {
        if is_leap_year(year) {
            29
        } else {
            28
        }
    } else if month == 4 || month == 6 || month == 9 || month == 11 {
        30
    } else {
        31
    }
}

/// Whether there is such a day. The years are limited to those that the `time`
/// crate holds.
pub open spec fn is_day(year: int, month: int, day: int) -> bool {
    &&& -100_000 <= year <= 100_000
    &&& 1 <= month <= 12
    &&& 1 <= day <= days_in_month(year, month)
}

/// Whether there is such a time of day.
pub open spec fn is_time_of_day(hour: int, minute: int, second: int) -> bool {
    hour <= 23 && minute <= 59 && second <= 59
}

/// `time::Date::try_from_ymd`, asked whether it succeeds: it does on the days
/// that there are.
#[verifier::external_body]
fn date_exists(year: i32, month: u8, day: u8) -> (r: bool)
    ensures
        r == is_day(year as int, month as int, day as int),
{
    time::Date::try_from_ymd(year, month, day).is_ok()
}

/// `time::Time::try_from_hms`, asked whether it succeeds: it does on the times
/// of a day without leap seconds.
#[verifier::external_body]
fn time_of_day_exists(hour: u8, minute: u8, second: u8) -> (r: bool)
    ensures
        r == is_time_of_day(hour as int, minute as int, second as int),
{
    time::Time::try_from_hms(hour, minute, second).is_ok()
}

/// `time::OffsetDateTime::now_utc`, field by field. Of the clock no more is
/// known than that it shows a day and a time of day.
#[verifier::external_body]
pub(crate) fn now_utc() -> (r: CivilDateTime)
    ensures
        is_day(r.year as int, r.month as int, r.day as int),
        is_time_of_day(r.hour as int, r.minute as int, r.second as int),
{
    let now = time::OffsetDateTime::now_utc();
    CivilDateTime {
        year: now.year(),
        month: now.month(),
        day: now.day(),
        hour: now.hour(),
        minute: now.minute(),
        second: now.second(),
    }
}

/// `time::OffsetDateTime::now_local`, field by field. Of the clock, and of how far the
/// machine is from UTC, no more is known than that a day and a time of day are shown.
#[verifier::external_body]
pub(crate) fn now_local() -> (r: CivilDateTime)
    ensures
        is_day(r.year as int, r.month as int, r.day as int),
        is_time_of_day(r.hour as int, r.minute as int, r.second as int),
{
    let now = time::OffsetDateTime::now_local();
    CivilDateTime {
        year: now.year(),
        month: now.month(),
        day: now.day(),
        hour: now.hour(),
        minute: now.minute(),
        second: now.second(),
    }
}

/// What a [`DateTime`] says.
pub ghost struct Moment {
    pub year: int,
    pub month: int,
    pub day: int,
    pub hour: int,
    pub minute: int,
    pub second: int,
}

impl Moment {
    /// Whether the fields fit into the two words that a zip file has for them.
    pub open spec fn fits(self) -> bool {
        &&& 1980 <= self.year <= 2107
        &&& 0 <= self.month <= 15
        &&& 0 <= self.day <= 31
        &&& 0 <= self.hour <= 31
        &&& 0 <= self.minute <= 63
        &&& 0 <= self.second <= 63
    }

    /// Whether the fields are within the bounds of a date and time.
    pub open spec fn in_bounds(self) -> bool {
        &&& 1980 <= self.year <= 2107
        &&& 1 <= self.month <= 12
        &&& 1 <= self.day <= 31
        &&& 0 <= self.hour <= 23
        &&& 0 <= self.minute <= 59
        &&& 0 <= self.second <= 60
    }

    /// The date word.
    pub open spec fn datepart(self) -> u16 {
        (self.day + 32 * self.month + 512 * (self.year - 1980)) as u16
    }

    /// The time word. It has room for every other second only.
    pub open spec fn timepart(self) -> u16 {
        (self.second / 2 + 32 * self.minute + 2048 * self.hour) as u16
    }

    /// The same moment, to the precision that a zip file keeps.
    pub open spec fn even(self) -> Moment {
        Moment { second: self.second - self.second % 2, ..self }
    }
}

/// What the two words of a zip file stand for.
pub open spec fn moment_of(datepart: u16, timepart: u16) -> Moment {
    Moment {
        year: 1980 + datepart / 512,
        month: (datepart / 32 % 16) as int,
        day: (datepart % 32) as int,
        hour: (timepart / 2048) as int,
        minute: (timepart / 32 % 64) as int,
        second: 2 * (timepart % 32),
    }
}

/// A moment read back from its two words is the moment, but for an odd second.
pub proof fn moment_of_parts(m: Moment)
    requires
        m.fits(),
    ensures
        moment_of(m.datepart(), m.timepart()) == m.even(),
{
}

/// What a date and a time of day show.
pub open spec fn shown(tm: CivilDateTime) -> Moment {
    Moment {
        year: tm.year as int,
        month: tm.month as int,
        day: tm.day as int,
        hour: tm.hour as int,
        minute: tm.minute as int,
        second: tm.second as int,
    }
}

/// What a date and a time of day show, or the start of 1980 where that cannot be
/// stored in a zip file.
pub open spec fn shown_or_default(tm: CivilDateTime) -> Moment {
    if shown(tm).in_bounds() {
        shown(tm)
    } else {
        Moment { year: 1980, month: 1, day: 1, hour: 0, minute: 0, second: 0 }
    }
}

/// The words of the moment that two words stand for are the two words.
pub proof fn parts_of_moment(datepart: u16, timepart: u16)
    ensures
        moment_of(datepart, timepart).fits(),
        moment_of(datepart, timepart).datepart() == datepart,
        moment_of(datepart, timepart).timepart() == timepart,
{
}

/// A DateTime field to be used for storing timestamps in a zip file
///
/// This structure does bounds checking to ensure the date is able to be stored in a zip file.
///
/// When constructed manually from a date and time, it will also check if the input is sensible
/// (e.g. months are from [1, 12]), but when read from a zip some parts may be out of their normal
/// bounds (e.g. month 0, or hour 31).
#[derive(Debug, Clone, Copy)]
pub struct DateTime {
    year: u16,
    month: u8,
    day: u8,
    hour: u8,
    minute: u8,
    second: u8,
}

impl Default for DateTime {
    /// Constructs an 'default' datetime of 1980-01-01 00:00:00
    fn default() -> (r: DateTime)
        ensures
            r@ == (Moment { year: 1980, month: 1, day: 1, hour: 0, minute: 0, second: 0 }),
    {
        DateTime { year: 1980, month: 1, day: 1, hour: 0, minute: 0, second: 0 }
    }
}

impl DateTime {
    #[verifier::type_invariant]
    spec fn holds(self) -> bool {
        self@.fits()
    }

    /// What this says.
    pub closed spec fn view(&self) -> Moment {
        Moment {
            year: self.year as int,
            month: self.month as int,
            day: self.day as int,
            hour: self.hour as int,
            minute: self.minute as int,
            second: self.second as int,
        }
    }

    /// Converts an msdos (u16, u16) pair to a DateTime object
    pub fn from_msdos(datepart: u16, timepart: u16) -> (r: DateTime)
        ensures
            r@ == moment_of(datepart, timepart),
    {
        let seconds: u16 = (timepart & 0b0000000000011111) << 1;
        let minutes: u16 = (timepart & 0b0000011111100000) >> 5;
        let hours: u16 = (timepart & 0b1111100000000000) >> 11;
        let days: u16 = datepart & 0b0000000000011111;
        let months: u16 = (datepart & 0b0000000111100000) >> 5;
        let years: u16 = (datepart & 0b1111111000000000) >> 9;
        assert((timepart & 0b0000000000011111) << 1 == 2 * (timepart % 32)) by (bit_vector);
        assert((timepart & 0b0000011111100000) >> 5 == timepart / 32 % 64) by (bit_vector);
        assert((timepart & 0b1111100000000000) >> 11 == timepart / 2048) by (bit_vector);
        assert(datepart & 0b0000000000011111 == datepart % 32) by (bit_vector);
        assert((datepart & 0b0000000111100000) >> 5 == datepart / 32 % 16) by (bit_vector);
        assert((datepart & 0b1111111000000000) >> 9 == datepart / 512) by (bit_vector);
        DateTime {
            year: years + 1980,
            month: months as u8,
            day: days as u8,
            hour: hours as u8,
            minute: minutes as u8,
            second: seconds as u8,
        }
    }

    /// Constructs a DateTime from a specific date and time
    ///
    /// The bounds are:
    /// * year: [1980, 2107]
    /// * month: [1, 12]
    /// * day: [1, 31]
    /// * hour: [0, 23]
    /// * minute: [0, 59]
    /// * second: [0, 60]
    pub fn from_date_and_time(
        year: u16,
        month: u8,
        day: u8,
        hour: u8,
        minute: u8,
        second: u8,
    ) -> (r: Result<DateTime, ()>)
        ensures
            ({
                let m = Moment {
                    year: year as int,
                    month: month as int,
                    day: day as int,
                    hour: hour as int,
                    minute: minute as int,
                    second: second as int,
                };
                match r {
                    Ok(dt) => m.in_bounds() && dt@ == m,
                    Err(_) => !m.in_bounds(),
                }
            }),
    {
        if year >= 1980 && year <= 2107 && month >= 1 && month <= 12 && day >= 1 && day <= 31
            && hour <= 23 && minute <= 59 && second <= 60 {
            Ok(DateTime { year, month, day, hour, minute, second })
        } else {
            Err(())
        }
    }

    /// Converts a date and time to a DateTime
    ///
    /// Returns `Err` when this object is out of bounds
    pub fn from_time(tm: CivilDateTime) -> (r: Result<DateTime, ()>)
        ensures
            match r {
                Ok(dt) => shown(tm).in_bounds() && dt@ == shown(tm),
                Err(_) => !shown(tm).in_bounds(),
            },
    {
        if tm.year >= 1980 && tm.year <= 2107 {
            Self::from_date_and_time(
                tm.year as u16,
                tm.month,
                tm.day,
                tm.hour,
                tm.minute,
                tm.second,
            )
        } else {
            Err(())
        }
    }

    /// Converts a date and time to a DateTime, or to the default one where it cannot be
    /// stored in a zip file.
    pub fn from_time_or_default(tm: CivilDateTime) -> (r: DateTime)
        ensures
            r@ == shown_or_default(tm),
    {
        match Self::from_time(tm) {
            Ok(dt) => dt,
            Err(_) => DateTime::default(),
        }
    }

    /// The current date and time, or the default one where it cannot be stored
    /// in a zip file. Which moment it is depends on the clock.
    pub fn now() -> (r: DateTime)
        ensures
            r@.in_bounds(),
            exists|tm: CivilDateTime|
                {
                    &&& r@ == #[trigger] shown_or_default(tm)
                    &&& is_day(tm.year as int, tm.month as int, tm.day as int)
                    &&& is_time_of_day(tm.hour as int, tm.minute as int, tm.second as int)
                },
    {
        let tm = now_utc();
        Self::from_time_or_default(tm)
    }

    /// Whether the parts are within the bounds of
    /// [`from_date_and_time`](DateTime::from_date_and_time).
    pub fn is_valid(&self) -> (r: bool)
        ensures
            r == self@.in_bounds(),
    {
        Self::from_date_and_time(
            self.year,
            self.month,
            self.day,
            self.hour,
            self.minute,
            self.second,
        ).is_ok()
    }

    /// Gets the time portion of this datetime in the msdos representation
    pub fn timepart(&self) -> (r: u16)
        ensures
            r == self@.timepart(),
    {
        proof {
            use_type_invariant(self);
        }
        let second: u16 = self.second as u16;
        let minute: u16 = self.minute as u16;
        let hour: u16 = self.hour as u16;
        assert((second >> 1) | (minute << 5) | (hour << 11) == second / 2 + 32 * minute + 2048
            * hour) by (bit_vector)
            requires
                second <= 63,
                minute <= 63,
                hour <= 31,
        ;
        (second >> 1) | (minute << 5) | (hour << 11)
    }

    /// Gets the date portion of this datetime in the msdos representation
    pub fn datepart(&self) -> (r: u16)
        ensures
            r == self@.datepart(),
            self@.fits(),
    {
        proof {
            use_type_invariant(self);
        }
        let day: u16 = self.day as u16;
        let month: u16 = self.month as u16;
        let years: u16 = self.year - 1980;
        assert(day | (month << 5) | (years << 9) == day + 32 * month + 512 * years) by (bit_vector)
            requires
                day <= 31,
                month <= 15,
                years <= 127,
        ;
        day | (month << 5) | (years << 9)
    }

    /// Converts the datetime to a date and a time of day, if there are such.
    pub fn to_time(&self) -> (r: Result<CivilDateTime, ()>)
        ensures
            match r {
                Ok(tm) => {
                    &&& is_day(self@.year, self@.month, self@.day)
                    &&& is_time_of_day(self@.hour, self@.minute, self@.second)
                    &&& tm.year == self@.year && tm.month == self@.month && tm.day == self@.day
                    &&& tm.hour == self@.hour && tm.minute == self@.minute && tm.second
                        == self@.second
                },
                Err(_) => !(is_day(self@.year, self@.month, self@.day) && is_time_of_day(
                    self@.hour,
                    self@.minute,
                    self@.second,
                )),
            },
    {
        if !date_exists(self.year as i32, self.month, self.day) {
            return Err(());
        }
        if !time_of_day_exists(self.hour, self.minute, self.second) {
            return Err(());
        }
        Ok(
            CivilDateTime {
                year: self.year as i32,
                month: self.month,
                day: self.day,
                hour: self.hour,
                minute: self.minute,
                second: self.second,
            },
        )
    }

    /// Get the year. There is no epoch, i.e. 2018 will be returned as 2018.
    pub fn year(&self) -> (r: u16)
        ensures
            r == self@.year,
    {
        self.year
    }

    /// Get the month, where 1 = january and 12 = december
    pub fn month(&self) -> (r: u8)
        ensures
            r == self@.month,
    {
        self.month
    }

    /// Get the day
    pub fn day(&self) -> (r: u8)
        ensures
            r == self@.day,
    {
        self.day
    }

    /// Get the hour
    pub fn hour(&self) -> (r: u8)
        ensures
            r == self@.hour,
    {
        self.hour
    }

    /// Get the minute
    pub fn minute(&self) -> (r: u8)
        ensures
            r == self@.minute,
    {
        self.minute
    }

    /// Get the second
    pub fn second(&self) -> (r: u8)
        ensures
            r == self@.second,
    {
        self.second
    }
}

/// The version of the format that the writer claims.
pub const DEFAULT_VERSION: u8 = 46;

/// The strength of AES encryption.
#[derive(Clone, Copy, Debug, PartialEq, Eq, Structural)]
pub enum AesMode {
    Aes128,
    Aes192,
    Aes256,
}

/// The version of the AES scheme.
#[derive(Clone, Copy, Debug, PartialEq, Eq, Structural)]
pub enum AesVendorVersion {
    Ae1,
    Ae2,
}

/// Structure representing a ZIP file.
#[derive(Debug)]
pub struct ZipFileData {
    /// Compatibility of the file attribute information
    pub system: System,
    /// Specification version
    pub version_made_by: u8,
    /// True if the file is encrypted.
    pub encrypted: bool,
    /// True if the file uses a data-descriptor section
    pub using_data_descriptor: bool,
    /// Compression method used to store the file
    pub compression_method: CompressionMethod,
    /// Compression level to store the file
    pub compression_level: Option<i32>,
    /// Last modified time. This will only have a 2 second precision.
    pub last_modified_time: DateTime,
    /// CRC32 checksum
    pub crc32: u32,
    /// Size of the file in the ZIP
    pub compressed_size: u64,
    /// Size of the file when extracted
    pub uncompressed_size: u64,
    /// Name of the file
    pub file_name: String,
    /// Raw file name. To be used when file_name was incorrectly decoded.
    pub file_name_raw: Vec<u8>,
    /// Extra field usually used for storage expansion
    pub extra_field: Vec<u8>,
    /// File comment
    pub file_comment: String,
    /// Specifies where the local header of the file starts
    pub header_start: u64,
    /// Specifies where the central header of the file starts
    ///
    /// Note that when this is not known, it is set to 0
    pub central_header_start: u64,
    /// Specifies where the compressed data of the file starts
    pub data_start: u64,
    /// External file attributes
    pub external_attributes: u32,
    /// Reserve local ZIP64 extra field
    pub large_file: bool,
    /// AES mode if applicable
    pub aes_mode: Option<(AesMode, AesVendorVersion)>,
}

/// What a [`ZipFileData`] says.
#[verifier::ext_equal]
pub ghost struct FileRecord {
    pub system: System,
    pub version_made_by: u8,
    pub encrypted: bool,
    pub using_data_descriptor: bool,
    pub compression_method: CompressionMethod,
    pub compression_level: Option<i32>,
    pub last_modified_time: Moment,
    pub crc32: u32,
    pub compressed_size: u64,
    pub uncompressed_size: u64,
    pub file_name: Seq<char>,
    pub file_name_raw: Seq<u8>,
    pub extra_field: Seq<u8>,
    pub file_comment: Seq<char>,
    pub header_start: u64,
    pub central_header_start: u64,
    pub data_start: u64,
    pub external_attributes: u32,
    pub large_file: bool,
    pub aes_mode: Option<(AesMode, AesVendorVersion)>,
}

impl View for ZipFileData {
    type V = FileRecord;

    open spec fn view(&self) -> FileRecord {
        FileRecord {
            system: self.system,
            version_made_by: self.version_made_by,
            encrypted: self.encrypted,
            using_data_descriptor: self.using_data_descriptor,
            compression_method: self.compression_method,
            compression_level: self.compression_level,
            last_modified_time: self.last_modified_time@,
            crc32: self.crc32,
            compressed_size: self.compressed_size,
            uncompressed_size: self.uncompressed_size,
            file_name: self.file_name@,
            file_name_raw: self.file_name_raw@,
            extra_field: self.extra_field@,
            file_comment: self.file_comment@,
            header_start: self.header_start,
            central_header_start: self.central_header_start,
            data_start: self.data_start,
            external_attributes: self.external_attributes,
            large_file: self.large_file,
            aes_mode: self.aes_mode,
        }
    }
}

impl Clone for ZipFileData {
    fn clone(&self) -> (r: Self)
        ensures
            r@ == self@,
            r@.last_modified_time.fits(),
    {
        proof {
            use_type_invariant(&self.last_modified_time);
        }
        let r = ZipFileData {
            system: self.system,
            version_made_by: self.version_made_by,
            encrypted: self.encrypted,
            using_data_descriptor: self.using_data_descriptor,
            compression_method: self.compression_method,
            compression_level: self.compression_level,
            last_modified_time: self.last_modified_time,
            crc32: self.crc32,
            compressed_size: self.compressed_size,
            uncompressed_size: self.uncompressed_size,
            file_name: self.file_name.clone(),
            file_name_raw: self.file_name_raw.clone(),
            extra_field: self.extra_field.clone(),
            file_comment: self.file_comment.clone(),
            header_start: self.header_start,
            central_header_start: self.central_header_start,
            data_start: self.data_start,
            external_attributes: self.external_attributes,
            large_file: self.large_file,
            aes_mode: self.aes_mode,
        };
        assert(r@ =~= self@);
        r
    }
}

impl FileRecord {
    /// The version of the format that is needed to extract the file.
    pub open spec fn version_needed(self) -> u16 {
        if self.compression_method == CompressionMethod::Bzip2 {
            46
        } else {
            20
        }
    }

    /// The unix mode of the file, as far as the attributes tell.
    pub open spec fn unix_mode(self) -> Option<u32> {
        unix_mode_of(self.system, self.external_attributes)
    }
}

/// The unix mode that a system's attributes stand for.
///
/// A unix mode is the upper half of the attributes. Of MS-DOS attributes, bit
/// four marks a directory and bit one a file that is read-only.
pub open spec fn unix_mode_of(system: System, attributes: u32) -> Option<u32> {
    match system {
        System::Unix => Some(attributes >> 16),
        System::Dos => {
            let mode = if 0x10 == (attributes & 0x10) {
                S_IFDIR | 0o0775
            } else {
                S_IFREG | 0o0664
            };
            Some(
                if 0x01 == (attributes & 0x01) {
                    mode & 0o0555
                } else {
                    mode
                },
            )
        },
        _ => None,
    }
}

/// The unix mode that a system's attributes stand for, if it can be told.
pub fn unix_mode_from(system: System, attributes: u32) -> (r: Option<u32>)
    ensures
        r == unix_mode_of(system, attributes),
{
    match system {
        System::Unix => Some(attributes >> 16),
        System::Dos => {
            // Interpret MSDOS directory bit
            let mut mode: u32 = if 0x10 == (attributes & 0x10) {
                S_IFDIR | 0o0775
            } else {
                S_IFREG | 0o0664
            };
            if 0x01 == (attributes & 0x01) {
                // Read-only bit; strip write permissions
                mode = mode & 0o0555;
            }
            Some(mode)
        },
        _ => None,
    }
}

impl ZipFileData {
    /// The name with all taken out of it that could lead elsewhere: what
    /// follows a NUL, a starting slash, `.` and `..`.
    pub fn file_name_sanitized(&self) -> (r: String)
        ensures
            r@ == sanitized(self@.file_name),
    {
        sanitize(self.file_name.as_str())
    }

    /// The name, if it leads to a place below the one it starts from.
    pub fn enclosed_name(&self) -> (r: Option<&str>)
        ensures
            match r {
                Some(name) => is_enclosed(self@.file_name) && name@ == self@.file_name,
                None => !is_enclosed(self@.file_name),
            },
    {
        if stays_enclosed(self.file_name.as_str()) {
            Some(self.file_name.as_str())
        } else {
            None
        }
    }

    /// Get unix mode for the file
    pub fn unix_mode(&self) -> (r: Option<u32>)
        ensures
            r == self@.unix_mode(),
    {
        unix_mode_from(self.system, self.external_attributes)
    }

    /// The version of the format that is needed to extract the file.
    pub fn version_needed(&self) -> (r: u16)
        ensures
            r == self@.version_needed(),
    {
        match self.compression_method {
            CompressionMethod::Bzip2 => 46,
            _ => 20,
        }
    }
}

/// What MS-DOS attributes tell: bit four marks a directory, all others are regular files; all can
/// read, and all can enter a directory. Where bit zero marks what is read-only, nobody can write,
/// and the type is not told; else the owner and the group can. Of a system that is neither MS-DOS
/// nor unix, nothing is known.
pub proof fn modes_of_systems(attributes: u32)
    ensures
        unix_mode_of(System::Unix, attributes) == Some(attributes / 0x1_0000),
        unix_mode_of(System::Unknown, attributes) is None,
        ({
            let mode = unix_mode_of(System::Dos, attributes)->0;
            let directory = attributes / 16 % 2 == 1;
            let read_only = attributes % 2 == 1;
            &&& unix_mode_of(System::Dos, attributes) is Some
            &&& mode & 0o444 == 0o444
            &&& mode & 0o111 == if directory {
                0o111u32
            } else {
                0
            }
            &&& mode & 0o222 == if read_only {
                0
            } else {
                0o220u32
            }
            &&& mode & 0o170000 == if read_only {
                0
            } else if directory {
                0o040000u32
            } else {
                0o100000
            }
            &&& mode <= 0o177777
        }),
{
    assert(attributes >> 16 == attributes / 0x1_0000) by (bit_vector);
    assert((attributes & 0x10 == 0x10) <==> attributes / 16 % 2 == 1) by (bit_vector);
    assert((attributes & 0x01 == 0x01) <==> attributes % 2 == 1) by (bit_vector);
    assert(forall|mode: u32|
        mode == (0o040000u32 | 0o0775) || mode == (0o100000u32 | 0o0664) || mode == (0o040000u32
            | 0o0775) & 0o0555 || mode == (0o100000u32 | 0o0664) & 0o0555 ==> (mode & 0o444 == 0o444
            && mode <= 0o177777)) by (bit_vector);
    assert((0o040000u32 | 0o0775) & 0o111 == 0o111 && (0o100000u32 | 0o0664) & 0o111 == 0 && (
    0o040000u32 | 0o0775) & 0o222 == 0o220 && (0o100000u32 | 0o0664) & 0o222 == 0o220 && (
    0o040000u32 | 0o0775) & 0o170000 == 0o040000 && (0o100000u32 | 0o0664) & 0o170000 == 0o100000)
        by (bit_vector);
    assert(((0o040000u32 | 0o0775) & 0o0555) & 0o111 == 0o111 && ((0o100000u32 | 0o0664) & 0o0555)
        & 0o111 == 0 && ((0o040000u32 | 0o0775) & 0o0555) & 0o222 == 0 && ((0o100000u32 | 0o0664)
        & 0o0555) & 0o222 == 0 && ((0o040000u32 | 0o0775) & 0o0555) & 0o170000 == 0 && ((0o100000u32
        | 0o0664) & 0o0555) & 0o170000 == 0) by (bit_vector);
}

/// Systems are found again by their numbers, of which unix has three and MS-DOS zero.
pub proof fn system_of_code(system: System, code: u8)
    ensures
        system is Unix || system is Dos || system is Unknown ==> system_of(system.code() as u8)
            == system,
        system_of(code) is Unix <==> code == 3,
        system_of(code) is Dos <==> code == 0,
        system.code() <= 255,
{
}

/// The words of a moment hold its parts in their order: a later moment has a greater date word, or
/// the same and a time word that is no less.
pub proof fn words_are_in_order(a: Moment, b: Moment)
    requires
        a.fits(),
        b.fits(),
    ensures
        a.year < b.year ==> a.datepart() < b.datepart(),
        a.year == b.year && a.month < b.month ==> a.datepart() < b.datepart(),
        a.year == b.year && a.month == b.month && a.day < b.day ==> a.datepart() < b.datepart(),
        a.year == b.year && a.month == b.month && a.day == b.day ==> a.datepart() == b.datepart(),
        a.hour < b.hour ==> a.timepart() < b.timepart(),
        a.hour == b.hour && a.minute < b.minute ==> a.timepart() < b.timepart(),
        a.hour == b.hour && a.minute == b.minute && a.second <= b.second ==> a.timepart()
            <= b.timepart(),
{
}

/// The times that can be told: from the start of 1980 to the end of 2107, with a second more for a
/// minute than there are. All of them fit into the words of a zip file. One that cannot be told
/// becomes the first of them.
pub proof fn times_that_can_be_told(m: Moment, tm: CivilDateTime)
    ensures
        m.in_bounds() <==> {
            &&& 1980 <= m.year <= 2107
            &&& 1 <= m.month <= 12
            &&& 1 <= m.day <= 31
            &&& 0 <= m.hour <= 23
            &&& 0 <= m.minute <= 59
            &&& 0 <= m.second <= 60
        },
        m.in_bounds() ==> m.fits(),
        shown_or_default(tm).in_bounds(),
        shown(tm).in_bounds() ==> {
            &&& shown_or_default(tm).year == tm.year
            &&& shown_or_default(tm).month == tm.month
            &&& shown_or_default(tm).day == tm.day
            &&& shown_or_default(tm).hour == tm.hour
            &&& shown_or_default(tm).minute == tm.minute
            &&& shown_or_default(tm).second == tm.second
        },
        !shown(tm).in_bounds() ==> shown_or_default(tm) == (Moment {
            year: 1980,
            month: 1,
            day: 1,
            hour: 0,
            minute: 0,
            second: 0,
        }),
{
}

} // verus!
