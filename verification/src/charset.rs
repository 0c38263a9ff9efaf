//! The character pools available for password generation, and the selection
//! of a pool from the three class flags.

use vstd::prelude::*;
use vstd::string::StringExecFns;

verus! {

/// The 52 upper- and lower-case letters.
pub open spec fn letter_chars() -> Seq<char> {
    "abcdefghijklmnopqrstuvwxyzABCDEFGHIJKLMNOPQRSTUVWXYZ"@
}

/// The 10 decimal digits.
pub open spec fn digit_chars() -> Seq<char> {
    "1234567890"@
}

/// The 10 punctuation characters offered for passwords.
pub open spec fn symbol_chars() -> Seq<char> {
    "!@#$%^&*()"@
}

/// The character pool selected by the three class flags, in the fixed order
/// letters, digits, symbols. When no flag is set, all three classes are used.
pub open spec fn charset_chars(alpha: bool, num: bool, symbol: bool) -> Seq<char> {
    let all = !alpha && !num && !symbol;
    (if alpha || all {
        letter_chars()
    } else {
        Seq::empty()
    }) + (if num || all {
        digit_chars()
    } else {
        Seq::empty()
    }) + (if symbol || all {
        symbol_chars()
    } else {
        Seq::empty()
    })
}

/// The human-readable label of the selected pool: the selected class names
/// run together, then one trailing space; empty when no flag is set (the
/// default full pool is not named).
pub open spec fn charset_label(alpha: bool, num: bool, symbol: bool) -> Seq<char> {
    if !alpha && !num && !symbol {
        Seq::empty()
    } else {
        (if alpha {
            "alpha"@
        } else {
            Seq::empty()
        }) + (if num {
            "numeric"@
        } else {
            Seq::empty()
        }) + (if symbol {
            "symbol"@
        } else {
            Seq::empty()
        }) + " "@
    }
}

/// Whatever the flags, the selected pool holds at least the 10 characters of
/// its smallest class.
pub proof fn lemma_charset_chars_len(alpha: bool, num: bool, symbol: bool)
    ensures
        charset_chars(alpha, num, symbol).len() >= 10,
{
    reveal_strlit("abcdefghijklmnopqrstuvwxyzABCDEFGHIJKLMNOPQRSTUVWXYZ");
    reveal_strlit("1234567890");
    reveal_strlit("!@#$%^&*()");
}

/// Builds the character pool and its label for the given class flags.
pub fn get_password_charset(alpha: bool, num: bool, symbol: bool) -> (r: (String, String))
    ensures
        r.0@ == charset_chars(alpha, num, symbol),
        r.1@ == charset_label(alpha, num, symbol),
{
    let all = !alpha && !num && !symbol;
    let mut charset = String::new();
    let mut charset_name = String::new();
    if alpha || all {
        charset.append("abcdefghijklmnopqrstuvwxyzABCDEFGHIJKLMNOPQRSTUVWXYZ");
    }
    if num || all {
        charset.append("1234567890");
    }
    if symbol || all {
        charset.append("!@#$%^&*()");
    }
    if alpha {
        charset_name.append("alpha");
    }
    if num {
        charset_name.append("numeric");
    }
    if symbol {
        charset_name.append("symbol");
    }
    let charset_name = if all {
        String::new()
    } else {
        charset_name.concat(" ")
    };
    proof {
        assert(charset@ =~= charset_chars(alpha, num, symbol));
        assert(charset_name@ =~= charset_label(alpha, num, symbol));
    }
    (charset, charset_name)
}

} // verus!
