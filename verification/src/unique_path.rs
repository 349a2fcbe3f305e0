//! Destination-name building for the unique-path allocator: sanitize the
//! server-supplied filename and produce the numbered fall-back candidates
//! `"{stem} ({i}).{ext}"`. Probing the filesystem for an unused candidate is
//! the shell's work; it hands candidates from here to that probe.

use vstd::prelude::*;

verus! {

/// What `sanitize_filename` makes of a name: a function of the name and the
/// windows flag alone.
pub uninterp spec fn sanitized_of(name: Seq<char>, windows: bool) -> Seq<char>;

/// Relies on `sanitize_filename::sanitize_with_options`, called with
/// truncation on and `_` as the replacement: the result depends only on the
/// name and the windows flag, and truncation caps it at 255 bytes, so at
/// 255 characters.
#[verifier::external_body]
fn sanitize_name(name: &str, windows: bool) -> (r: String)
    ensures
        r@ == sanitized_of(name@, windows),
        r@.len() <= 255,
{
    sanitize_filename::sanitize_with_options(
        name,
        sanitize_filename::Options { windows, truncate: true, replacement: "_" },
    )
}

/// The decimal digits of `n`, most significant first.
pub open spec fn decimal_of(n: nat) -> Seq<char>
    decreases n,
{
    if n < 10 {
        seq![digit_char(n)]
    } else {
        decimal_of(n / 10).push(digit_char(n % 10))
    }
}

/// The character for one decimal digit.
pub open spec fn digit_char(d: nat) -> char {
    if d == 0 {
        '0'
    } else if d == 1 {
        '1'
    } else if d == 2 {
        '2'
    } else if d == 3 {
        '3'
    } else if d == 4 {
        '4'
    } else if d == 5 {
        '5'
    } else if d == 6 {
        '6'
    } else if d == 7 {
        '7'
    } else if d == 8 {
        '8'
    } else {
        '9'
    }
}

fn digit_str(d: u64) -> (r: String)
    requires
        d < 10,
    ensures
        r@ == seq![digit_char(d as nat)],
{
    let r = if d == 0 {
        String::from_str("0")
    } else if d == 1 {
        String::from_str("1")
    } else if d == 2 {
        String::from_str("2")
    } else if d == 3 {
        String::from_str("3")
    } else if d == 4 {
        String::from_str("4")
    } else if d == 5 {
        String::from_str("5")
    } else if d == 6 {
        String::from_str("6")
    } else if d == 7 {
        String::from_str("7")
    } else if d == 8 {
        String::from_str("8")
    } else {
        String::from_str("9")
    };
    proof {
        reveal_strlit("0");
        reveal_strlit("1");
        reveal_strlit("2");
        reveal_strlit("3");
        reveal_strlit("4");
        reveal_strlit("5");
        reveal_strlit("6");
        reveal_strlit("7");
        reveal_strlit("8");
        reveal_strlit("9");
        assert(r@ =~= seq![digit_char(d as nat)]);
    }
    r
}

/// Render `i` in decimal, most significant digit first.
fn format_u64(i: u64) -> (r: String)
    ensures
        r@ == decimal_of(i as nat),
    decreases i,
{
    if i < 10 {
        digit_str(i)
    } else {
        proof {
            assert(i / 10 < i) by (nonlinear_arith)
                requires
                    i >= 10,
            ;
        }
        let mut s = format_u64(i / 10);
        let d = digit_str(i % 10);
        s.append(d.as_str());
        proof {
            assert(s@ =~= decimal_of(i as nat));
        }
        s
    }
}

/// The first destination candidate for a task: the sanitized server name
/// under the save directory.
pub fn dest_candidate(save_dir: &str, name: &str, windows: bool) -> (r: String)
    ensures
        r@ == save_dir@ + seq!['/'] + sanitized_of(name@, windows),
{
    let mut out = String::from_str(save_dir);
    out.append("/");
    let s = sanitize_name(name, windows);
    out.append(s.as_str());
    proof {
        reveal_strlit("/");
        assert("/"@ =~= seq!['/']);
    }
    out
}

/// The `i`-th fall-back name the unique-path allocator tries after a
/// collision: `"{stem} ({i}).{ext}"`.
pub fn numbered_name(stem: &str, ext: &str, i: u64) -> (r: String)
    ensures
        r@ == stem@ + " ("@ + decimal_of(i as nat) + ")."@ + ext@,
{
    let mut out = String::from_str(stem);
    out.append(" (");
    let d = format_u64(i);
    out.append(d.as_str());
    out.append(").");
    out.append(ext);
    out
}

} // verus!
