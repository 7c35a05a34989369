use vstd::prelude::*;

verus! {

/// Seconds since the Unix epoch, read from the system clock.
///
/// Calls `std::time::SystemTime::now`, `duration_since(UNIX_EPOCH)` and
/// `Duration::as_secs`; `None` when the clock is set before the epoch. The
/// value depends on the clock, so nothing is promised of it.
#[verifier::external_body]
fn unix_now_secs() -> (t: Option<u64>) {
    match std::time::SystemTime::now().duration_since(std::time::UNIX_EPOCH) {
        Ok(d) => Some(d.as_secs()),
        Err(_) => None,
    }
}

/// The current time as a timestamp: the seconds since the Unix epoch; a
/// clock set before the epoch reads as zero, and one beyond the largest
/// `i64` as that number.
fn now_timestamp() -> (t: i64)
    ensures
        t >= 0,
{
    match unix_now_secs() {
        Some(secs) => if secs > 0x7fff_ffff_ffff_ffff {
            0x7fff_ffff_ffff_ffff
        } else {
            secs as i64
        },
        None => 0,
    }
}

/// A text expansion snippet: a trigger and the body that replaces it.
#[derive(Debug, PartialEq)]
pub struct Snippet {
    /// The trigger text that will be expanded (e.g. ";name").
    pub trigger: String,
    /// Optional label describing the snippet.
    pub label: Option<String>,
    /// The expansion text that replaces the trigger.
    pub body: String,
    /// Number of times this snippet has been used.
    pub usage_count: i64,
    /// Unix timestamp when the snippet was created.
    pub created_at: i64,
    /// Unix timestamp when the snippet was last updated.
    pub updated_at: i64,
}

impl Clone for Snippet {
    fn clone(&self) -> (r: Self)
        ensures
            r == *self,
    {
        let label = match &self.label {
            Some(l) => Some(l.clone()),
            None => None,
        };
        Snippet {
            trigger: self.trigger.clone(),
            label,
            body: self.body.clone(),
            usage_count: self.usage_count,
            created_at: self.created_at,
            updated_at: self.updated_at,
        }
    }
}

/// The message `validate` gives for an empty trigger.
pub open spec fn empty_trigger_message() -> Seq<char> {
    seq!['T', 'r', 'i', 'g', 'g', 'e', 'r', ' ', 'c', 'a', 'n', 'n', 'o', 't', ' ', 'b', 'e', ' ', 'e', 'm', 'p', 't', 'y']
}

/// The message `validate` gives for an empty body.
pub open spec fn empty_body_message() -> Seq<char> {
    seq!['B', 'o', 'd', 'y', ' ', 'c', 'a', 'n', 'n', 'o', 't', ' ', 'b', 'e', ' ', 'e', 'm', 'p', 't', 'y']
}

impl Snippet {
    /// Creates a new snippet with the given trigger and body, no label, no
    /// usage, and both timestamps set to the current time.
    pub fn new(trigger: String, body: String) -> (s: Self)
        ensures
            s.trigger == trigger,
            s.body == body,
            s.label is None,
            s.usage_count == 0,
            s.created_at == s.updated_at,
            s.created_at >= 0,
    {
        Self::new_at(trigger, body, now_timestamp())
    }

    /// Creates a new snippet with the given trigger and body, no label, no
    /// usage, and both timestamps set to `now`.
    pub fn new_at(trigger: String, body: String, now: i64) -> (s: Self)
        ensures
            s.trigger == trigger,
            s.body == body,
            s.label is None,
            s.usage_count == 0,
            s.created_at == now,
            s.updated_at == now,
    {
        Snippet { trigger, label: None, body, usage_count: 0, created_at: now, updated_at: now }
    }

    /// Creates a new snippet with the given trigger, label and body, and
    /// both timestamps set to the current time.
    pub fn with_label(trigger: String, label: Option<String>, body: String) -> (s: Self)
        ensures
            s.trigger == trigger,
            s.body == body,
            s.label == label,
            s.usage_count == 0,
            s.created_at == s.updated_at,
            s.created_at >= 0,
    {
        Self::with_label_at(trigger, label, body, now_timestamp())
    }

    /// Creates a new snippet with the given trigger, label and body, no
    /// usage, and both timestamps set to `now`.
    pub fn with_label_at(trigger: String, label: Option<String>, body: String, now: i64) -> (s: Self)
        ensures
            s.trigger == trigger,
            s.body == body,
            s.label == label,
            s.usage_count == 0,
            s.created_at == now,
            s.updated_at == now,
    {
        Snippet { trigger, label, body, usage_count: 0, created_at: now, updated_at: now }
    }

    /// Validates that the trigger and the body are both non-empty.
    pub fn validate(&self) -> (r: Result<(), String>)
        ensures
            self.trigger@.len() == 0 ==> (r matches Err(e) && e@ == empty_trigger_message()),
            self.trigger@.len() != 0 && self.body@.len() == 0 ==> (r matches Err(e) && e@
                == empty_body_message()),
            r is Ok <==> (self.trigger@.len() != 0 && self.body@.len() != 0),
    {
        if self.trigger.as_str().is_empty() {
            proof {
                reveal_strlit("Trigger cannot be empty");
            }
            return Err(String::from_str("Trigger cannot be empty"));
        }
        if self.body.as_str().is_empty() {
            proof {
                reveal_strlit("Body cannot be empty");
            }
            return Err(String::from_str("Body cannot be empty"));
        }
        Ok(())
    }

    /// Sets the update timestamp to `now`; every other field stays.
    pub fn touch_at(&mut self, now: i64)
        ensures
            final(self).trigger == old(self).trigger,
            final(self).label == old(self).label,
            final(self).body == old(self).body,
            final(self).usage_count == old(self).usage_count,
            final(self).created_at == old(self).created_at,
            final(self).updated_at == now,
    {
        self.updated_at = now;
    }

    /// Sets the update timestamp to the current time, read from the clock;
    /// every other field stays.
    pub fn touch(&mut self)
        ensures
            final(self).trigger == old(self).trigger,
            final(self).label == old(self).label,
            final(self).body == old(self).body,
            final(self).usage_count == old(self).usage_count,
            final(self).created_at == old(self).created_at,
            final(self).updated_at >= 0,
    {
        let now = now_timestamp();
        self.touch_at(now);
    }
}

} // verus!
