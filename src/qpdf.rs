//! The qpdf command lines for page, merge, encryption and compression
//! operations, and what a finished qpdf run means. Running the program and
//! handling its files happens outside the library.
use vstd::prelude::*;
use vstd::string::StringExecFns;

use crate::error::Error;
use crate::page_range::{parse_u32, parse_u32_chars, trim, trim_chars};
use crate::reader::{chars_of, contains_subseq, text_contains};
use crate::strings::{decimal, decimal_string};

verus! {

/// Operations through the qpdf command-line tool.
pub struct QpdfWrapper;

/// The text of each argument.
pub open spec fn args_view(args: Seq<String>) -> Seq<Seq<char>> {
    args.map_values(|a: String| a@)
}

/// `--password=PW` when a password is given.
pub open spec fn password_args(password: Option<Seq<char>>) -> Seq<Seq<char>> {
    match password {
        Some(p) => seq!["--password="@ + p],
        None => seq![],
    }
}

/// How much printing an encrypted document allows.
#[derive(Clone, Copy, Debug, PartialEq, Eq, Structural)]
pub enum PrintPermission {
    Full,
    Low,
    Forbidden,
}

/// `none` and `low` name the restricted levels; anything else allows full
/// printing.
pub open spec fn print_permission_of(name: Seq<char>) -> PrintPermission {
    if name == "none"@ {
        PrintPermission::Forbidden
    } else if name == "low"@ {
        PrintPermission::Low
    } else {
        PrintPermission::Full
    }
}

/// The qpdf flag of a print permission.
pub open spec fn print_flag(p: PrintPermission) -> Seq<char> {
    match p {
        PrintPermission::Forbidden => "--print=none"@,
        PrintPermission::Low => "--print=low"@,
        PrintPermission::Full => "--print=full"@,
    }
}

/// The object stream mode: `preserve` and `disable` as named, `generate`
/// otherwise.
pub open spec fn object_streams_mode(name: Option<Seq<char>>) -> Seq<char> {
    match name {
        Some(n) => if n == "preserve"@ || n == "disable"@ {
            n
        } else {
            "generate"@
        },
        None => "generate"@,
    }
}

/// The compression level: 9 unless given, and kept within 1 to 9.
pub open spec fn compression_level_of(level: Option<u8>) -> nat {
    match level {
        Some(l) => if l < 1 {
            1
        } else if l > 9 {
            9
        } else {
            l as nat
        },
        None => 9,
    }
}

/// Extracting pages `pages` of `input` into `output`, decrypted.
pub open spec fn split_args_of(
    input: Seq<char>,
    output: Seq<char>,
    pages: Seq<char>,
    password: Option<Seq<char>>,
) -> Seq<Seq<char>> {
    password_args(password) + seq![input, "--pages"@, "."@, pages, "--"@, "--decrypt"@, output]
}

/// Each input followed by the range of all its pages.
pub open spec fn all_pages_of(inputs: Seq<Seq<char>>) -> Seq<Seq<char>>
    decreases inputs.len(),
{
    if inputs.len() == 0 {
        seq![]
    } else {
        all_pages_of(inputs.drop_last()) + seq![inputs.last(), "1-z"@]
    }
}

/// All pages of each input, in order, into one new document.
pub open spec fn merge_args_of(inputs: Seq<Seq<char>>, output: Seq<char>) -> Seq<Seq<char>> {
    seq!["--empty"@, "--pages"@] + all_pages_of(inputs) + seq!["--"@, output]
}

/// 256-bit AES encryption with the given passwords and permissions.
pub open spec fn encrypt_args_of(
    input: Seq<char>,
    output: Seq<char>,
    user_password: Seq<char>,
    owner_password: Option<Seq<char>>,
    allow_print: Seq<char>,
    allow_copy: bool,
    allow_modify: bool,
    source_password: Option<Seq<char>>,
) -> Seq<Seq<char>> {
    let owner = match owner_password {
        Some(o) => o,
        None => user_password,
    };
    password_args(source_password) + seq![input, "--encrypt"@, user_password, owner, "256"@]
        + permission_args_of(allow_print, allow_copy, allow_modify) + seq!["--"@, output]
}

/// The permission flags of an encryption.
pub open spec fn permission_args_of(allow_print: Seq<char>, allow_copy: bool, allow_modify: bool) -> Seq<
    Seq<char>,
> {
    seq![print_flag(print_permission_of(allow_print))] + (if allow_copy {
        seq![]
    } else {
        seq!["--extract=n"@]
    }) + (if allow_modify {
        seq![]
    } else {
        seq!["--modify=none"@]
    })
}

/// Removing the password protection.
pub open spec fn decrypt_args_of(input: Seq<char>, output: Seq<char>, password: Seq<char>) -> Seq<
    Seq<char>,
> {
    seq!["--password="@ + password, "--decrypt"@, input, output]
}

/// Rewriting with recompressed streams and unused resources removed.
pub open spec fn compress_args_of(
    input: Seq<char>,
    output: Seq<char>,
    password: Option<Seq<char>>,
    object_streams: Option<Seq<char>>,
    compression_level: Option<u8>,
) -> Seq<Seq<char>> {
    password_args(password) + seq![
        input,
        "--object-streams="@ + object_streams_mode(object_streams),
        "--recompress-flate"@,
        "--compression-level="@ + decimal(compression_level_of(compression_level)),
        "--optimize-images"@,
        "--remove-unreferenced-resources=yes"@,
        "--normalize-content=y"@,
        "--decrypt"@,
        output,
    ]
}

/// Asking for the number of pages.
pub open spec fn page_count_args_of(input: Seq<char>, password: Option<Seq<char>>) -> Seq<
    Seq<char>,
> {
    password_args(password) + seq!["--show-npages"@, input]
}

/// Whether qpdf's error output speaks of a password.
pub open spec fn mentions_password(stderr: Seq<char>) -> bool {
    contains_subseq(stderr, "password"@)
}

/// Whether qpdf reported success with warnings.
pub open spec fn succeeded_with_warnings(stderr: Seq<char>) -> bool {
    contains_subseq(stderr, "operation succeeded"@)
}

/// The view of an optional string.
pub open spec fn opt_seq(o: Option<&str>) -> Option<Seq<char>> {
    match o {
        Some(s) => Some(s@),
        None => None,
    }
}

fn text(s: &str) -> (r: String)
    ensures
        r@ == s@,
{
    s.to_owned()
}

fn joined(a: &str, b: &str) -> (r: String)
    ensures
        r@ == a@ + b@,
{
    let mut r = a.to_owned();
    r.append(b);
    r
}

fn push_arg(args: &mut Vec<String>, a: String)
    ensures
        args_view(final(args)@) == args_view(old(args)@).push(a@),
{
    let ghost before = args@;
    args.push(a);
    assert(args_view(args@) =~= args_view(before).push(a@));
}

fn push_password(args: &mut Vec<String>, password: Option<&str>)
    ensures
        args_view(final(args)@) == args_view(old(args)@) + password_args(opt_seq(password)),
{
    match password {
        Some(p) => {
            push_arg(args, joined("--password=", p));
            assert(args_view(args@) =~= args_view(old(args)@) + password_args(opt_seq(password)));
        },
        None => {
            assert(args_view(args@) =~= args_view(old(args)@) + password_args(opt_seq(password)));
        },
    }
}

/// Whether two strings hold the same characters.
fn same_text(a: &str, b: &str) -> (r: bool)
    ensures
        r == (a@ == b@),
{
    let x = chars_of(a);
    let y = chars_of(b);
    if x.len() != y.len() {
        return false;
    }
    let mut i: usize = 0;
    while i < x.len()
        invariant
            x@ == a@,
            y@ == b@,
            x@.len() == y@.len(),
            i <= x@.len(),
            forall|k: int| 0 <= k < i ==> x@[k] == y@[k],
        decreases x@.len() - i,
    {
        if x[i] != y[i] {
            return false;
        }
        i = i + 1;
    }
    assert(x@ =~= y@);
    true
}

fn push_permissions(args: &mut Vec<String>, allow_print: &str, allow_copy: bool, allow_modify: bool)
    ensures
        args_view(final(args)@) == args_view(old(args)@) + permission_args_of(
            allow_print@,
            allow_copy,
            allow_modify,
        ),
{
    proof {
        reveal_strlit("none");
        reveal_strlit("low");
    }
    let flag = if same_text(allow_print, "none") {
        text("--print=none")
    } else if same_text(allow_print, "low") {
        text("--print=low")
    } else {
        text("--print=full")
    };
    push_arg(args, flag);
    if !allow_copy {
        push_arg(args, text("--extract=n"));
    }
    if !allow_modify {
        push_arg(args, text("--modify=none"));
    }
    assert(args_view(args@) =~= args_view(old(args)@) + permission_args_of(
        allow_print@,
        allow_copy,
        allow_modify,
    ));
}

impl QpdfWrapper {
    /// The arguments that extract pages `pages` of `input` into `output`.
    pub fn split_args(input: &str, output: &str, pages: &str, password: Option<&str>) -> (args:
        Vec<String>)
        ensures
            args_view(args@) == split_args_of(input@, output@, pages@, opt_seq(password)),
    {
        let mut args: Vec<String> = Vec::new();
        push_password(&mut args, password);
        push_arg(&mut args, text(input));
        push_arg(&mut args, text("--pages"));
        push_arg(&mut args, text("."));
        push_arg(&mut args, text(pages));
        push_arg(&mut args, text("--"));
        push_arg(&mut args, text("--decrypt"));
        push_arg(&mut args, text(output));
        assert(args_view(args@) =~= split_args_of(input@, output@, pages@, opt_seq(password)));
        args
    }

    /// The arguments that merge `inputs` into `output`, or an error when
    /// there is no input.
    pub fn merge_args(inputs: &Vec<String>, output: &str) -> (r: Result<Vec<String>, Error>)
        ensures
            inputs@.len() == 0 ==> (r matches Err(Error::QpdfError { reason }) && reason@
                == "No input PDFs provided"@),
            inputs@.len() > 0 ==> (r matches Ok(args) && args_view(args@) == merge_args_of(
                args_view(inputs@),
                output@,
            )),
    {
        if inputs.len() == 0 {
            return Err(Error::QpdfError { reason: text("No input PDFs provided") });
        }
        let mut args: Vec<String> = Vec::new();
        push_arg(&mut args, text("--empty"));
        push_arg(&mut args, text("--pages"));
        let mut i: usize = 0;
        while i < inputs.len()
            invariant
                i <= inputs@.len(),
                args_view(args@) == seq!["--empty"@, "--pages"@] + all_pages_of(
                    args_view(inputs@.subrange(0, i as int)),
                ),
            decreases inputs@.len() - i,
        {
            let ghost before = args_view(args@);
            push_arg(&mut args, inputs[i].clone());
            push_arg(&mut args, text("1-z"));
            proof {
                let names = args_view(inputs@.subrange(0, i + 1));
                assert(names.drop_last() =~= args_view(inputs@.subrange(0, i as int)));
                assert(names.last() == inputs@[i as int]@);
                assert(args_view(args@) =~= seq!["--empty"@, "--pages"@] + all_pages_of(names));
            }
            i = i + 1;
        }
        assert(inputs@.subrange(0, inputs@.len() as int) =~= inputs@);
        push_arg(&mut args, text("--"));
        push_arg(&mut args, text(output));
        assert(args_view(args@) =~= merge_args_of(args_view(inputs@), output@));
        Ok(args)
    }

    /// The arguments that encrypt `input` into `output`.
    pub fn encrypt_args(
        input: &str,
        output: &str,
        user_password: &str,
        owner_password: Option<&str>,
        allow_print: &str,
        allow_copy: bool,
        allow_modify: bool,
        source_password: Option<&str>,
    ) -> (args: Vec<String>)
        ensures
            args_view(args@) == encrypt_args_of(
                input@,
                output@,
                user_password@,
                opt_seq(owner_password),
                allow_print@,
                allow_copy,
                allow_modify,
                opt_seq(source_password),
            ),
    {
        let mut args: Vec<String> = Vec::new();
        push_password(&mut args, source_password);
        push_arg(&mut args, text(input));
        push_arg(&mut args, text("--encrypt"));
        push_arg(&mut args, text(user_password));
        let owner = match owner_password {
            Some(o) => o,
            None => user_password,
        };
        push_arg(&mut args, text(owner));
        push_arg(&mut args, text("256"));
        let ghost head = args_view(args@);
        push_permissions(&mut args, allow_print, allow_copy, allow_modify);
        push_arg(&mut args, text("--"));
        push_arg(&mut args, text(output));
        assert(args_view(args@) =~= encrypt_args_of(
            input@,
            output@,
            user_password@,
            opt_seq(owner_password),
            allow_print@,
            allow_copy,
            allow_modify,
            opt_seq(source_password),
        ));
        args
    }

    /// The arguments that remove the protection of `input` into `output`.
    pub fn decrypt_args(input: &str, output: &str, password: &str) -> (args: Vec<String>)
        ensures
            args_view(args@) == decrypt_args_of(input@, output@, password@),
    {
        let mut args: Vec<String> = Vec::new();
        push_arg(&mut args, joined("--password=", password));
        push_arg(&mut args, text("--decrypt"));
        push_arg(&mut args, text(input));
        push_arg(&mut args, text(output));
        assert(args_view(args@) =~= decrypt_args_of(input@, output@, password@));
        args
    }

    /// The arguments that compress `input` into `output`.
    pub fn compress_args(
        input: &str,
        output: &str,
        password: Option<&str>,
        object_streams: Option<&str>,
        compression_level: Option<u8>,
    ) -> (args: Vec<String>)
        ensures
            args_view(args@) == compress_args_of(
                input@,
                output@,
                opt_seq(password),
                opt_seq(object_streams),
                compression_level,
            ),
    {
        let mut args: Vec<String> = Vec::new();
        push_password(&mut args, password);
        push_arg(&mut args, text(input));
        proof {
            reveal_strlit("preserve");
            reveal_strlit("disable");
        }
        let mode = match object_streams {
            Some(n) => if same_text(n, "preserve") || same_text(n, "disable") {
                text(n)
            } else {
                text("generate")
            },
            None => text("generate"),
        };
        push_arg(&mut args, joined("--object-streams=", mode.as_str()));
        push_arg(&mut args, text("--recompress-flate"));
        let level: u8 = match compression_level {
            Some(l) => if l < 1 {
                1
            } else if l > 9 {
                9
            } else {
                l
            },
            None => 9,
        };
        let digits = decimal_string(level as u64);
        push_arg(&mut args, joined("--compression-level=", digits.as_str()));
        push_arg(&mut args, text("--optimize-images"));
        push_arg(&mut args, text("--remove-unreferenced-resources=yes"));
        push_arg(&mut args, text("--normalize-content=y"));
        push_arg(&mut args, text("--decrypt"));
        push_arg(&mut args, text(output));
        assert(args_view(args@) =~= compress_args_of(
            input@,
            output@,
            opt_seq(password),
            opt_seq(object_streams),
            compression_level,
        ));
        args
    }

    /// The arguments that ask for the page count of `input`.
    pub fn page_count_args(input: &str, password: Option<&str>) -> (args: Vec<String>)
        ensures
            args_view(args@) == page_count_args_of(input@, opt_seq(password)),
    {
        let mut args: Vec<String> = Vec::new();
        push_password(&mut args, password);
        push_arg(&mut args, text("--show-npages"));
        push_arg(&mut args, text(input));
        assert(args_view(args@) =~= page_count_args_of(input@, opt_seq(password)));
        args
    }

    /// The meaning of a finished page extraction: a failure that speaks of
    /// a password is a wrong password, one that speaks of a page range names
    /// the range, any other carries qpdf's message.
    pub fn split_outcome(success: bool, stderr: &str, pages: &str) -> (r: Result<(), Error>)
        ensures
            success ==> r is Ok,
            !success && mentions_password(stderr@) ==> r matches Err(Error::IncorrectPassword),
            !success && !mentions_password(stderr@) && contains_subseq(stderr@, "page range"@)
                ==> (r matches Err(Error::InvalidPageRange { range }) && range@ == pages@),
            !success && !mentions_password(stderr@) && !contains_subseq(stderr@, "page range"@)
                ==> (r matches Err(Error::QpdfError { reason }) && reason@ == stderr@),
    {
        if success {
            return Ok(());
        }
        if text_contains(stderr, "password") {
            return Err(Error::IncorrectPassword);
        }
        if text_contains(stderr, "page range") {
            return Err(Error::InvalidPageRange { range: text(pages) });
        }
        Err(Error::QpdfError { reason: text(stderr) })
    }

    /// The meaning of a finished merge: a failure counts only when qpdf
    /// did not report success with warnings.
    pub fn merge_outcome(success: bool, stderr: &str) -> (r: Result<(), Error>)
        ensures
            success || succeeded_with_warnings(stderr@) ==> r is Ok,
            !success && !succeeded_with_warnings(stderr@) ==> (r matches Err(
                Error::QpdfError { reason },
            ) && reason@ == stderr@),
    {
        if !success && !text_contains(stderr, "operation succeeded") {
            return Err(Error::QpdfError { reason: text(stderr) });
        }
        Ok(())
    }

    /// The meaning of a finished encryption or decryption: a failure that
    /// speaks of a password is a wrong password, any other carries qpdf's
    /// message.
    pub fn protection_outcome(success: bool, stderr: &str) -> (r: Result<(), Error>)
        ensures
            success ==> r is Ok,
            !success && mentions_password(stderr@) ==> r matches Err(Error::IncorrectPassword),
            !success && !mentions_password(stderr@) ==> (r matches Err(
                Error::QpdfError { reason },
            ) && reason@ == stderr@),
    {
        if success {
            return Ok(());
        }
        if text_contains(stderr, "password") {
            return Err(Error::IncorrectPassword);
        }
        Err(Error::QpdfError { reason: text(stderr) })
    }

    /// The meaning of a finished compression or page count: as for
    /// encryption, except that success with warnings counts as success.
    pub fn tolerant_outcome(success: bool, stderr: &str) -> (r: Result<(), Error>)
        ensures
            success ==> r is Ok,
            !success && mentions_password(stderr@) ==> r matches Err(Error::IncorrectPassword),
            !success && !mentions_password(stderr@) && succeeded_with_warnings(stderr@) ==> r is Ok,
            !success && !mentions_password(stderr@) && !succeeded_with_warnings(stderr@) ==> (r matches Err(Error::QpdfError { reason }) && reason@ == stderr@),
    {
        if success {
            return Ok(());
        }
        if text_contains(stderr, "password") {
            return Err(Error::IncorrectPassword);
        }
        if !text_contains(stderr, "operation succeeded") {
            return Err(Error::QpdfError { reason: text(stderr) });
        }
        Ok(())
    }

    /// The page count that `--show-npages` printed.
    pub fn parse_page_count(stdout: &str) -> (r: Result<u32, Error>)
        ensures
            parse_u32(trim(stdout@)) matches Some(n) ==> r == Ok::<u32, Error>(n),
            parse_u32(trim(stdout@)) is None ==> (r matches Err(Error::QpdfError { reason })
                && reason@ == "Failed to parse page count: "@ + stdout@),
    {
        let chars = chars_of(stdout);
        match parse_u32_chars(&trim_chars(&chars)) {
            Some(n) => Ok(n),
            None => Err(Error::QpdfError { reason: joined("Failed to parse page count: ", stdout) }),
        }
    }
}

} // verus!
