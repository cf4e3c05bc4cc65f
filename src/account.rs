//! One configured mail account.

use crate::text::views;
use vstd::prelude::*;
use vstd::string::*;

verus! {

/// The pieces of `s` between single spaces, empty pieces included: there is
/// always one more piece than there are spaces.
pub open spec fn split_spaces(s: Seq<char>) -> Seq<Seq<char>>
    decreases s.len(),
{
    if s.len() == 0 {
        seq![Seq::empty()]
    } else {
        let p = split_spaces(s.drop_last());
        if s.last() == ' ' {
            p.push(Seq::empty())
        } else {
            p.update(p.len() - 1, p.last().push(s.last()))
        }
    }
}

/// A mail account to watch.
#[derive(Clone, Debug)]
pub struct Account {
    /// The name shown in notifications.
    pub name: String,
    /// The host of the mail server.
    pub address: String,
    pub port: u16,
    pub username: String,
    /// The command, with arguments separated by spaces, that prints the password.
    pub password_command: String,
    /// A shell command run whenever new mail is notified.
    pub notification_command: Option<String>,
}

impl Account {
    /// The program and arguments of the password command: its pieces between
    /// spaces, the first being the program.
    pub fn password_argv(&self) -> (r: Vec<String>)
        ensures
            views(r@) == split_spaces(self.password_command@),
    {
        let s = self.password_command.as_str();
        let ghost cs = s@;
        let n = s.unicode_len();
        let mut pieces: Vec<String> = Vec::new();
        let mut start: usize = 0;
        let mut i: usize = 0;
        assert(cs.subrange(0, 0) =~= Seq::<char>::empty());
        assert(views(pieces@) =~= Seq::<Seq<char>>::empty());
        assert(split_spaces(Seq::<char>::empty()) =~= seq![Seq::<char>::empty()]);
        while i < n
            invariant
                n == cs.len(),
                cs == s@,
                start <= i <= n,
                split_spaces(cs.subrange(0, i as int)) == views(pieces@).push(
                    cs.subrange(start as int, i as int),
                ),
            decreases n - i,
        {
            let ghost prior = split_spaces(cs.subrange(0, i as int));
            assert(cs.subrange(0, i + 1).drop_last() =~= cs.subrange(0, i as int));
            assert(cs.subrange(0, i + 1).last() == cs[i as int]);
            let c = s.get_char(i);
            if c == ' ' {
                pieces.push(String::from_str(s.substring_char(start, i)));
                start = i + 1;
                assert(cs.subrange(start as int, i + 1) =~= Seq::<char>::empty());
                assert(views(pieces@) =~= prior.drop_last().push(prior.last()));
                assert(split_spaces(cs.subrange(0, i + 1)) =~= views(pieces@).push(
                    cs.subrange(start as int, i + 1),
                ));
            } else {
                assert(cs.subrange(start as int, i as int).push(c) =~= cs.subrange(
                    start as int,
                    i + 1,
                ));
                assert(split_spaces(cs.subrange(0, i + 1)) =~= views(pieces@).push(
                    cs.subrange(start as int, i + 1),
                ));
            }
            i = i + 1;
        }
        pieces.push(String::from_str(s.substring_char(start, n)));
        assert(cs.subrange(0, n as int) =~= cs);
        assert(views(pieces@) =~= split_spaces(cs));
        pieces
    }
}

} // verus!
