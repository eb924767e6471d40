//! Common channel-side logic: the allow-list that decides which senders
//! may reach the agent. The adapters that speak to the chat platforms are
//! the outer shell's; they consult this check before forwarding anything.

use vstd::prelude::*;
use crate::text::{chars_of, chars_eq, own_str};

verus! {

/// The sender id with any leading `@` marks removed.
pub open spec fn strip_ats(s: Seq<char>) -> Seq<char>
    decreases s.len(),
{
    if s.len() > 0 && s[0] == '@' {
        strip_ats(s.drop_first())
    } else {
        s
    }
}

/// The position of the first `|` in a compound sender id, if any.
pub open spec fn bar_index(s: Seq<char>, i: int) -> Option<int>
    decreases s.len() - i when 0 <= i <= s.len()
{
    if i >= s.len() {
        None
    } else if s[i] == '|' {
        Some(i)
    } else {
        bar_index(s, i + 1)
    }
}

/// Whether one allow-list entry admits the sender: the entry (with or
/// without its `@` prefix) must equal the full id, its part before `|`,
/// or its part after `|`.
pub open spec fn entry_admits(entry: Seq<char>, sender: Seq<char>) -> bool {
    let trimmed = strip_ats(entry);
    let id_part = match bar_index(sender, 0) {
        Some(p) => sender.subrange(0, p),
        None => sender,
    };
    let user_part: Option<Seq<char>> = match bar_index(sender, 0) {
        Some(p) => Some(sender.subrange(p + 1, sender.len() as int)),
        None => None,
    };
    ||| sender == entry
    ||| sender == trimmed
    ||| id_part == entry
    ||| id_part == trimmed
    ||| (match user_part {
        Some(u) => u == entry || u == trimmed,
        None => false,
    })
}

/// Whether the allow list admits the sender: an empty list denies all,
/// a `*` entry admits all, otherwise some entry must match.
pub open spec fn list_admits(entries: Seq<Seq<char>>, sender: Seq<char>) -> bool {
    &&& entries.len() > 0
    &&& ((exists|i: int| 0 <= i < entries.len() && entries[i] == "*"@) || (exists|i: int|
        0 <= i < entries.len() && entry_admits(entries[i], sender)))
}

/// Per-channel state shared by every chat adapter: the channel's name and
/// the senders allowed to use it.
pub struct BaseChannel {
    pub channel_name: String,
    pub allow_list: Vec<String>,
}

pub open spec fn view_list(v: Seq<String>) -> Seq<Seq<char>> {
    Seq::new(v.len(), |i: int| v[i]@)
}

impl BaseChannel {
    pub fn new(name: &str, allow_list: Vec<String>) -> (r: BaseChannel)
        ensures
            r.channel_name@ == name@,
            r.allow_list@ == allow_list@,
    {
        BaseChannel { channel_name: own_str(name), allow_list }
    }

    pub fn name<'a>(&'a self) -> (r: &'a str)
        ensures
            r@ == self.channel_name@,
    {
        self.channel_name.as_str()
    }

    /// Check whether a sender is allowed to use this channel. An empty
    /// allow list denies everyone; `*` admits everyone; otherwise the
    /// sender, its id part before `|`, or its user part after `|` must
    /// equal an entry (with or without the entry's `@` prefix).
    #[verifier::loop_isolation(false)]
    pub fn is_allowed(&self, sender_id: &str) -> (r: bool)
        ensures
            r == list_admits(view_list(self.allow_list@), sender_id@),
    {
        let ghost ev = view_list(self.allow_list@);
        if self.allow_list.len() == 0 {
            return false;
        }
        let sender = chars_of(sender_id);
        let star = chars_of("*");
        let mut n: usize = 0;
        while n < self.allow_list.len()
            invariant
                n <= self.allow_list@.len(),
                forall|i: int| 0 <= i < n ==> ev[i] != "*"@,
            decreases self.allow_list@.len() - n,
        {
            let e = chars_of(self.allow_list[n].as_str());
            if chars_eq(&e, &star) {
                proof {
                    reveal_strlit("*");
                    assert(ev[n as int] == "*"@);
                }
                return true;
            }
            proof {
                reveal_strlit("*");
            }
            n += 1;
        }
        // split the sender at the first `|`
        let mut bar: Option<usize> = None;
        let mut k: usize = 0;
        while k < sender.len() && bar.is_none()
            invariant
                bar is Some ==> k < sender@.len(),
                k <= sender@.len(),
                (match bar {
                    Some(p) => bar_index(sender@, 0) == Some(p as int) && p < sender@.len(),
                    None => bar_index(sender@, 0) == bar_index(sender@, k as int),
                }),
            decreases sender@.len() - k, (if bar is None { 1int } else { 0int }),
        {
            if sender[k] == '|' {
                bar = Some(k);
            } else {
                k += 1;
            }
        }
        let id_part: Vec<char> = match bar {
            Some(p) => crate::json::copy_range(&sender, 0, p),
            None => crate::json::copy_range(&sender, 0, sender.len()),
        };
        let user_part: Option<Vec<char>> = match bar {
            Some(p) => Some(crate::json::copy_range(&sender, p + 1, sender.len())),
            None => None,
        };
        proof {
            assert(sender@.subrange(0, sender@.len() as int) =~= sender@);
        }
        let mut m: usize = 0;
        while m < self.allow_list.len()
            invariant
                m <= self.allow_list@.len(),
                forall|i: int| 0 <= i < m ==> !entry_admits(ev[i], sender_id@),
            decreases self.allow_list@.len() - m,
        {
            let entry = chars_of(self.allow_list[m].as_str());
            // strip leading `@` marks
            let mut a: usize = 0;
            proof {
                assert(entry@.subrange(0, entry@.len() as int) =~= entry@);
            }
            while a < entry.len() && entry[a] == '@'
                invariant
                    a <= entry@.len(),
                    strip_ats(entry@) == strip_ats(entry@.subrange(a as int, entry@.len() as int)),
                decreases entry@.len() - a,
            {
                proof {
                    let s = entry@.subrange(a as int, entry@.len() as int);
                    assert(s[0] == entry@[a as int]);
                    assert(s.drop_first() =~= entry@.subrange(a as int + 1, entry@.len() as int));
                }
                a += 1;
            }
            proof {
                let s = entry@.subrange(a as int, entry@.len() as int);
                if s.len() > 0 {
                    assert(s[0] == entry@[a as int]);
                }
                assert(strip_ats(entry@) == s);
            }
            let trimmed = crate::json::copy_range(&entry, a, entry.len());
            let hit = chars_eq(&sender, &entry) || chars_eq(&sender, &trimmed) || chars_eq(
                &id_part,
                &entry,
            ) || chars_eq(&id_part, &trimmed) || (match &user_part {
                Some(u) => chars_eq(u, &entry) || chars_eq(u, &trimmed),
                None => false,
            });
            if hit {
                proof {
                    assert(ev[m as int] == entry@);
                    assert(sender@ == sender_id@);
                    match bar {
                        Some(p) => {
                            assert(id_part@ == sender_id@.subrange(0, p as int));
                            assert(user_part matches Some(u) && u@ == sender_id@.subrange(
                                p as int + 1,
                                sender_id@.len() as int,
                            ));
                        },
                        None => {
                            assert(bar_index(sender_id@, 0) is None);
                            assert(id_part@ == sender_id@);
                        },
                    }
                    assert(entry_admits(ev[m as int], sender_id@));
                }
                return true;
            }
            m += 1;
        }
        false
    }
}

} // verus!
