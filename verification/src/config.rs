//! Start-up configuration: the bot token and the database location. Reading
//! the token from a file or the terminal is the application's business; the
//! decisions — an empty token is rejected, a sqlite URL names the file to
//! create — are made here.

use vstd::prelude::*;
use vstd::string::StrSliceExecFns;
use vstd::string::StringExecFns;
use crate::text::trim_both;
use crate::text::trim_spec;

verus! {

/// The bot's credentials and the persistence location.
pub struct Config {
    pub bot_token: String,
    pub database_url: String,
}

impl Config {
    /// Builds a configuration from an already-read token and database URL.
    /// The token is trimmed and must not be empty then; prompting for a
    /// replacement is the caller's business.
    pub fn from_parts(bot_token: &str, database_url: &str) -> (r: Option<Config>)
        ensures
            r matches Some(c) ==> trim_spec(bot_token@).len() > 0 && c.bot_token@ == trim_spec(
                bot_token@,
            ) && c.database_url@ == database_url@,
            r is None ==> trim_spec(bot_token@).len() == 0,
    {
        let t = trim_both(bot_token);
        if t.as_str().unicode_len() == 0 {
            None
        } else {
            Some(Config { bot_token: t, database_url: String::from_str(database_url) })
        }
    }

    /// The file path of a `sqlite:` database URL, or `None` for any other
    /// scheme; the application creates the file when it is missing.
    pub fn sqlite_path(&self) -> (r: Option<String>)
        ensures
            r matches Some(p) ==> self.database_url@.len() >= 7 && self.database_url@.take(7)
                == "sqlite:"@ && p@ == self.database_url@.skip(7),
            r is None ==> !(self.database_url@.len() >= 7 && self.database_url@.take(7)
                == "sqlite:"@),
    {
        let url = self.database_url.as_str();
        let n: usize = url.unicode_len();
        if n < 7 {
            return None;
        }
        let prefix = url.substring_char(0, 7);
        proof {
            assert(url@.subrange(0, 7) =~= url@.take(7));
        }
        if crate::text::str_eq(prefix, "sqlite:") {
            proof {
                assert(url@.subrange(7, n as int) =~= url@.skip(7));
            }
            Some(String::from_str(url.substring_char(7, n)))
        } else {
            None
        }
    }
}

} // verus!
