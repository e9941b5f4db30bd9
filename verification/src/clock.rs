use vstd::prelude::*;

verus! {

/// One local-time snapshot, broken out into plain calendar and clock fields.
/// `weekday` counts Monday as 0 through Sunday as 6.
#[derive(Clone, Copy, Debug)]
pub struct Timestamp {
    pub year: i32,
    pub month: u8,
    pub day: u8,
    pub weekday: u8,
    pub hour: u8,
    pub minute: u8,
    pub second: u8,
}

impl Timestamp {
    /// The field ranges that any real clock reading satisfies.
    pub open spec fn wf(self) -> bool {
        &&& 1 <= self.month <= 12
        &&& 1 <= self.day <= 31
        &&& self.weekday <= 6
        &&& self.hour <= 23
        &&& self.minute <= 59
        &&& self.second <= 59
    }

    /// Reads the current local time.
    ///
    /// Relies on `chrono::Local::now` and the `chrono::Datelike` and
    /// `chrono::Timelike` accessors, whose documented ranges are: `month`
    /// 1 to 12, `day` 1 to 31, `num_days_from_monday` 0 to 6, `hour` 0 to 23,
    /// and `minute` and `second` each 0 to 59.
    #[verifier::external_body]
    pub(crate) fn now() -> (t: Timestamp)
        ensures
            t.wf(),
    {
        let now = chrono::Local::now();
        Timestamp {
            year: chrono::Datelike::year(&now),
            month: chrono::Datelike::month(&now) as u8,
            day: chrono::Datelike::day(&now) as u8,
            weekday: chrono::Datelike::weekday(&now).num_days_from_monday() as u8,
            hour: chrono::Timelike::hour(&now) as u8,
            minute: chrono::Timelike::minute(&now) as u8,
            second: chrono::Timelike::second(&now) as u8,
        }
    }
}

} // verus!
