//! Turning the wrapper's process arguments into a rustc argument vector.

use vstd::prelude::*;

use crate::text::{
    append, chars_of, owned, push_char, seq_contains, starts_with, str_eq, string_from_chars,
};

verus! {

/// The `key` part of a `key=value` flag: everything before the first `=`, or the whole flag
/// when it carries none.
pub open spec fn flag_key(flag: Seq<char>) -> Seq<char>
    decreases flag.len(),
{
    if flag.len() == 0 {
        Seq::empty()
    } else if flag[0] == '=' {
        Seq::empty()
    } else {
        seq![flag[0]] + flag_key(flag.drop_first())
    }
}

/// Whether one argument sets `key`, in either the `key` or the `key=value` form.
pub open spec fn sets_flag(arg: Seq<char>, key: Seq<char>) -> bool {
    arg == key || (key + seq!['=']).is_prefix_of(arg)
}

/// Whether some argument sets `key`.
pub open spec fn carries_flag(args: Seq<Seq<char>>, key: Seq<char>) -> bool {
    exists|i: int| 0 <= i < args.len() && #[trigger] sets_flag(args[i], key)
}

/// Whether one argument marks one of cargo's info queries: the `-vV` version probe or a
/// `--print` request.
pub open spec fn is_info_query_arg(arg: Seq<char>) -> bool {
    arg == "-vV"@ || arg == "--print"@ || "--print="@.is_prefix_of(arg)
}

/// Whether the invocation is one of cargo's pre-build info queries.
pub open spec fn spec_is_info_query(args: Seq<Seq<char>>) -> bool {
    exists|i: int| 0 <= i < args.len() && #[trigger] is_info_query_arg(args[i])
}

/// Whether the arguments can be a wrapper-mode invocation: a second argument that names `rustc`
/// somewhere in it. Which such paths are `rustc` is read from their file stem, whose splitting
/// into components depends on the platform's path syntax.
pub open spec fn may_be_wrapper_mode(args: Seq<Seq<char>>) -> bool {
    args.len() > 1 && seq_contains(args[1], "rustc"@)
}

/// The arguments with the injected compiler path (`args[1]`) dropped in wrapper mode.
pub open spec fn without_wrapper_path(args: Seq<Seq<char>>, wrapper: bool) -> Seq<Seq<char>> {
    if wrapper && args.len() > 1 {
        args.remove(1)
    } else {
        args
    }
}

/// The arguments with `flag sysroot` appended, unless there is no sysroot to pass or the
/// invocation already sets `flag`.
pub open spec fn with_sysroot(
    args: Seq<Seq<char>>,
    sysroot: Option<Seq<char>>,
    flag: Seq<char>,
) -> Seq<Seq<char>> {
    match sysroot {
        Some(s) => if carries_flag(args, flag) {
            args
        } else {
            args.push(flag).push(s)
        },
        None => args,
    }
}

/// The arguments with each of `flags` appended in turn, skipping a flag whose key the
/// arguments (including the flags appended before it) already set.
pub open spec fn with_injected(args: Seq<Seq<char>>, flags: Seq<Seq<char>>) -> Seq<Seq<char>>
    decreases flags.len(),
{
    if flags.len() == 0 {
        args
    } else {
        let next = if carries_flag(args, flag_key(flags[0])) {
            args
        } else {
            args.push(flags[0])
        };
        with_injected(next, flags.drop_first())
    }
}

/// The rustc argument vector for the raw process arguments.
pub open spec fn spec_rustc_args(
    raw: Seq<Seq<char>>,
    wrapper: bool,
    sysroot: Option<Seq<char>>,
    sysroot_flag: Seq<char>,
    flags: Seq<Seq<char>>,
) -> Seq<Seq<char>> {
    let args = with_sysroot(without_wrapper_path(raw, wrapper), sysroot, sysroot_flag);
    if spec_is_info_query(args) {
        args
    } else {
        with_injected(args, flags)
    }
}

/// Whether `path` is a bare file name on every platform: non-empty, with no path separator
/// (`/`, `\\`), drive marker (`:`) or extension dot (`.`).
pub open spec fn is_bare_file_name(path: Seq<char>) -> bool {
    path.len() > 0 && forall|i: int|
        0 <= i < path.len() ==> path[i] != '/' && path[i] != '\\' && path[i] != '.' && path[i]
            != ':'
}

/// The final `/`-separated component of `path` (all of it when it has no `/`).
pub open spec fn last_component(path: Seq<char>) -> Seq<char>
    decreases path.len(),
{
    if path.len() == 0 || path.last() == '/' {
        Seq::empty()
    } else {
        last_component(path.drop_last()).push(path.last())
    }
}

/// The characters of `name` before its first `.` (all of it when it has none).
pub open spec fn before_dot(name: Seq<char>) -> Seq<char>
    decreases name.len(),
{
    if name.len() == 0 || name[0] == '.' {
        Seq::empty()
    } else {
        seq![name[0]] + before_dot(name.drop_first())
    }
}

/// Whether every platform splits `path` the same way: `/` is a separator everywhere, while a
/// `\\` (a separator on Windows only) or a leading `//` (a Windows network-share prefix) is read
/// differently from one platform to another.
pub open spec fn is_portable_path(path: Seq<char>) -> bool {
    &&& forall|i: int| 0 <= i < path.len() ==> path[i] != '\\'
    &&& !(path.len() >= 2 && path[0] == '/' && path[1] == '/')
}

/// The file stem every platform reads off `path`, where that is fixed: for a portable path
/// whose final component is a bare name (`…/rustc`), that name; when the final component is a
/// bare name with one bare extension (`…/rustc.exe`), the name before the dot. `None` for any
/// other path, whose stem this leaves to the platform.
pub open spec fn portable_stem(path: Seq<char>) -> Option<Seq<char>> {
    let name = last_component(path);
    let stem = before_dot(name);
    if !is_portable_path(path) {
        None
    } else if is_bare_file_name(name) {
        Some(name)
    } else if stem.len() < name.len() && is_bare_file_name(stem) && is_bare_file_name(
        name.skip(stem.len() + 1int),
    ) {
        Some(stem)
    } else {
        None
    }
}

/// The file stem of `path` (its final component without the extension), through std's
/// `Path::file_stem` and `OsStr::to_str`. The stem is always a piece of the path. On every
/// platform `/` separates components, so for a portable path (no `\\`, no leading `//`) the final
/// component is what follows the last `/`; when that is a bare name it is its own stem, and when
/// it is a bare name with one bare extension the stem is the part before the dot (`file_stem`
/// drops the text after the final `.` of a name that does not start with one). The stem of any
/// other path depends on the platform's path syntax, so nothing more is stated of it.
#[verifier::external_body]
fn path_file_stem(path: &str) -> (r: Option<String>)
    ensures
        match r {
            Some(s) => seq_contains(path@, s@) && (portable_stem(path@) matches Some(t) ==> s@ == t),
            None => portable_stem(path@) is None,
        },
{
    match std::path::Path::new(path).file_stem() {
        Some(stem) => match stem.to_str() {
            Some(text) => Some(text.to_owned()),
            None => None,
        },
        None => None,
    }
}

/// Build the argument vector handed to the compiler, for an invocation in wrapper mode or not.
///
/// cargo invokes the wrapper as `cargo-cgp-driver <path-to-rustc> <rustc args...>`; in that
/// wrapper mode (`wrapper`) the injected compiler path is dropped. Then `sysroot_flag sysroot` is appended
/// unless the invocation already sets the flag, and, unless the invocation is one of cargo's
/// info queries, each of `injected_flags` is appended unless the arguments already set its key
/// (so an explicit `-Zkey=other` on the command line wins).
pub fn rustc_args_for(
    raw_args: Vec<String>,
    wrapper: bool,
    sysroot: Option<String>,
    sysroot_flag: &str,
    injected_flags: &[&str],
) -> (out: Vec<String>)
    ensures
        out.deep_view() == spec_rustc_args(
            raw_args.deep_view(),
            wrapper,
            match sysroot {
                Some(s) => Some(s@),
                None => None,
            },
            sysroot_flag@,
            injected_flags.deep_view(),
        ),
{
    let mut args = raw_args;
    let ghost raw = args.deep_view();

    if wrapper && args.len() > 1 {
        args.remove(1);
        assert(args.deep_view() =~= raw.remove(1));
    }
    assert(args.deep_view() == without_wrapper_path(raw, wrapper));
    let ghost base = args.deep_view();

    match sysroot {
        Some(s) => {
            if !has_flag(&args, sysroot_flag) {
                args.push(owned(sysroot_flag));
                args.push(s);
                assert(args.deep_view() =~= base.push(sysroot_flag@).push(s@));
            }
        },
        None => {},
    }
    let ghost with_root = args.deep_view();

    if !is_info_query(&args) {
        let mut i: usize = 0;
        assert(injected_flags.deep_view().skip(0) =~= injected_flags.deep_view());
        while i < injected_flags.len()
            invariant
                i <= injected_flags@.len(),
                with_injected(args.deep_view(), injected_flags.deep_view().skip(i as int))
                    == with_injected(with_root, injected_flags.deep_view()),
            decreases injected_flags@.len() - i,
        {
            let flag = injected_flags[i];
            let key = flag_key_of(flag);
            let ghost before = args.deep_view();
            assert(injected_flags.deep_view().skip(i as int)[0] == flag@);
            assert(injected_flags.deep_view().skip(i as int).drop_first() =~= injected_flags.deep_view().skip(
                i + 1,
            ));
            if !has_flag(&args, key.as_str()) {
                args.push(owned(flag));
                assert(args.deep_view() =~= before.push(flag@));
            }
            i = i + 1;
        }
        assert(injected_flags.deep_view().skip(i as int) =~= Seq::<Seq<char>>::empty());
    }
    args
}

/// Build the argument vector handed to the compiler from the process arguments: the invocation
/// is in wrapper mode when its second argument's file stem is `rustc` (see [`is_wrapper_mode`]),
/// and the vector is then built as [`rustc_args_for`] builds it. Wherever that stem is the same
/// on every platform (see [`wrapper_mode_known`]) the result is fixed; for any other second
/// argument it is one of the two builds, the wrapper one only when the argument mentions `rustc`.
pub fn rustc_args(
    raw_args: Vec<String>,
    sysroot: Option<String>,
    sysroot_flag: &str,
    injected_flags: &[&str],
) -> (out: Vec<String>)
    ensures
        ({
            let raw = raw_args.deep_view();
            let root = match sysroot {
                Some(s) => Some(s@),
                None => None,
            };
            let flags = injected_flags.deep_view();
            &&& wrapper_mode_known(raw) ==> out.deep_view() == spec_rustc_args(
                raw,
                spec_wrapper_mode(raw),
                root,
                sysroot_flag@,
                flags,
            )
            &&& !wrapper_mode_known(raw) ==> {
                ||| out.deep_view() == spec_rustc_args(raw, false, root, sysroot_flag@, flags)
                ||| may_be_wrapper_mode(raw) && out.deep_view() == spec_rustc_args(
                    raw,
                    true,
                    root,
                    sysroot_flag@,
                    flags,
                )
            }
        }),
{
    let wrapper = is_wrapper_mode(&raw_args);
    rustc_args_for(raw_args, wrapper, sysroot, sysroot_flag, injected_flags)
}

/// The key of a `key=value` flag: the characters before the first `=`.
pub fn flag_key_of(flag: &str) -> (key: String)
    ensures
        key@ == flag_key(flag@),
{
    let chars = chars_of(flag);
    let mut end: usize = 0;
    while end < chars.len() && chars[end] != '='
        invariant
            end <= chars@.len(),
            chars@ == flag@,
            forall|j: int| 0 <= j < end ==> chars@[j] != '=',
        decreases chars@.len() - end,
    {
        end = end + 1;
    }
    proof {
        lemma_flag_key_prefix(chars@, end as int);
    }
    string_from_chars(&chars, 0, end)
}

/// `flag_key` is the run of characters before the first `=`.
proof fn lemma_flag_key_prefix(s: Seq<char>, end: int)
    requires
        0 <= end <= s.len(),
        forall|j: int| 0 <= j < end ==> s[j] != '=',
        end == s.len() || s[end] == '=',
    ensures
        flag_key(s) == s.subrange(0, end),
    decreases s.len(),
{
    if s.len() == 0 {
    } else if s[0] == '=' {
    } else {
        lemma_flag_key_prefix(s.drop_first(), end - 1);
        assert(s.subrange(0, end) =~= seq![s[0]] + s.drop_first().subrange(0, end - 1));
    }
}

/// Whether this invocation is one of cargo's pre-build info queries rather than a real
/// compilation: the `rustc -vV` version probe or any `--print` request.
pub fn is_info_query(args: &Vec<String>) -> (r: bool)
    ensures
        r == spec_is_info_query(args.deep_view()),
{
    let mut i: usize = 0;
    while i < args.len()
        invariant
            i <= args@.len(),
            forall|j: int| 0 <= j < i ==> !#[trigger] is_info_query_arg(args.deep_view()[j]),
        decreases args@.len() - i,
    {
        let arg = args[i].as_str();
        if str_eq(arg, "-vV") || str_eq(arg, "--print") || starts_with(arg, "--print=") {
            assert(is_info_query_arg(args.deep_view()[i as int]));
            return true;
        }
        i = i + 1;
    }
    false
}

/// Whether the second argument names `rustc` by a path whose stem every platform reads the same
/// way (see [`portable_stem`]): a bare `rustc`, `…/bin/rustc`, or `…/bin/rustc.exe`.
pub open spec fn spec_wrapper_mode(args: Seq<Seq<char>>) -> bool {
    args.len() > 1 && portable_stem(args[1]) == Some("rustc"@)
}

/// Whether the wrapper-mode decision is fixed on every platform: there is no second argument,
/// or its stem is portable.
pub open spec fn wrapper_mode_known(args: Seq<Seq<char>>) -> bool {
    args.len() <= 1 || portable_stem(args[1]) is Some
}

/// Whether `args[1]` is a path to `rustc` (its file stem is `rustc`), i.e. cargo called the
/// driver as its rustc wrapper: exactly [`spec_wrapper_mode`] wherever the stem is portable,
/// and only ever for a second argument that mentions `rustc`.
pub fn is_wrapper_mode(args: &Vec<String>) -> (r: bool)
    ensures
        r ==> may_be_wrapper_mode(args.deep_view()),
        wrapper_mode_known(args.deep_view()) ==> r == spec_wrapper_mode(args.deep_view()),
{
    if args.len() < 2 {
        return false;
    }
    assert(args.deep_view()[1] == args@[1]@);
    match path_file_stem(args[1].as_str()) {
        Some(stem) => str_eq(stem.as_str(), "rustc"),
        None => false,
    }
}

/// Whether the flags already carry `key`, in either `key` or `key=value` form.
pub fn has_flag(args: &Vec<String>, key: &str) -> (r: bool)
    ensures
        r == carries_flag(args.deep_view(), key@),
{
    let mut with_eq = owned(key);
    push_char(&mut with_eq, '=');
    let mut i: usize = 0;
    while i < args.len()
        invariant
            i <= args@.len(),
            with_eq@ == key@ + seq!['='],
            forall|j: int| 0 <= j < i ==> !#[trigger] sets_flag(args.deep_view()[j], key@),
        decreases args@.len() - i,
    {
        let arg = args[i].as_str();
        if str_eq(arg, key) || starts_with(arg, with_eq.as_str()) {
            assert(sets_flag(args.deep_view()[i as int], key@));
            return true;
        }
        i = i + 1;
    }
    false
}

/// A flag sets its own key.
pub proof fn lemma_flag_sets_own_key(flag: Seq<char>)
    ensures
        sets_flag(flag, flag_key(flag)),
    decreases flag.len(),
{
    if flag.len() == 0 {
        assert(flag_key(flag) =~= flag);
    } else if flag[0] == '=' {
        assert(flag_key(flag) =~= Seq::<char>::empty());
        assert((flag_key(flag) + seq!['=']) =~= flag.subrange(0, 1));
    } else {
        let tail = flag.drop_first();
        lemma_flag_sets_own_key(tail);
        let k = flag_key(tail);
        assert(flag_key(flag) == seq![flag[0]] + k);
        if tail == k {
            assert(flag =~= flag_key(flag));
        } else {
            assert((k + seq!['=']).is_prefix_of(tail));
            assert(tail.subrange(0, k.len() + 1 as int) =~= k + seq!['=']);
            let lhs = flag_key(flag) + seq!['='];
            let rhs = flag.subrange(0, k.len() + 2 as int);
            assert forall|i: int| 0 <= i < lhs.len() implies lhs[i] == rhs[i] by {
                if i > 0 {
                    assert(lhs[i] == (k + seq!['='])[i - 1]);
                    assert(tail[i - 1] == flag[i]);
                }
            }
            assert(lhs =~= rhs);
        }
    }
}

/// Appending arguments never unsets a flag the arguments already carry.
proof fn lemma_carries_extends(args: Seq<Seq<char>>, extra: Seq<Seq<char>>, key: Seq<char>)
    requires
        carries_flag(args, key),
    ensures
        carries_flag(args + extra, key),
{
    let i = choose|i: int| 0 <= i < args.len() && #[trigger] sets_flag(args[i], key);
    assert((args + extra)[i] == args[i]);
}

/// Injection only appends: the arguments it starts from are a prefix of its result.
proof fn lemma_injected_extends(args: Seq<Seq<char>>, flags: Seq<Seq<char>>)
    ensures
        args.is_prefix_of(with_injected(args, flags)),
    decreases flags.len(),
{
    if flags.len() > 0 {
        let next = if carries_flag(args, flag_key(flags[0])) {
            args
        } else {
            args.push(flags[0])
        };
        lemma_injected_extends(next, flags.drop_first());
        assert(args.is_prefix_of(next));
    }
}

/// After injection, the key of every injected flag is set, whether the caller set it or the
/// injection appended it.
proof fn lemma_injected_keys_set(args: Seq<Seq<char>>, flags: Seq<Seq<char>>)
    ensures
        forall|j: int|
            0 <= j < flags.len() ==> carries_flag(
                with_injected(args, flags),
                flag_key(#[trigger] flags[j]),
            ),
    decreases flags.len(),
{
    if flags.len() > 0 {
        let f = flags[0];
        let next = if carries_flag(args, flag_key(f)) {
            args
        } else {
            args.push(f)
        };
        if !carries_flag(args, flag_key(f)) {
            lemma_flag_sets_own_key(f);
            assert(sets_flag(next[args.len() as int], flag_key(f)));
        }
        let rest = flags.drop_first();
        lemma_injected_keys_set(next, rest);
        lemma_injected_extends(next, rest);
        let out = with_injected(next, rest);
        assert(out =~= next + out.subrange(next.len() as int, out.len() as int));
        lemma_carries_extends(next, out.subrange(next.len() as int, out.len() as int), flag_key(f));
        assert forall|j: int| 0 <= j < flags.len() implies carries_flag(
            out,
            flag_key(#[trigger] flags[j]),
        ) by {
            if j > 0 {
                assert(flags[j] == rest[j - 1]);
            }
        }
    }
}

/// An invocation that already sets the key of every injected flag is passed through unchanged:
/// an explicit flag on the command line always wins over the injected one.
proof fn lemma_explicit_flags_win(args: Seq<Seq<char>>, flags: Seq<Seq<char>>)
    requires
        forall|j: int| 0 <= j < flags.len() ==> carries_flag(args, flag_key(#[trigger] flags[j])),
    ensures
        with_injected(args, flags) == args,
    decreases flags.len(),
{
    if flags.len() > 0 {
        assert(carries_flag(args, flag_key(flags[0])));
        let rest = flags.drop_first();
        assert forall|j: int| 0 <= j < rest.len() implies carries_flag(
            args,
            flag_key(#[trigger] rest[j]),
        ) by {
            assert(rest[j] == flags[j + 1]);
        }
        lemma_explicit_flags_win(args, rest);
    }
}

/// The rustc argument vector keeps every argument of the invocation, in order, as its prefix:
/// the driver only drops the injected compiler path and appends.
pub proof fn law_rustc_args_keep_invocation(
    raw: Seq<Seq<char>>,
    wrapper: bool,
    sysroot: Option<Seq<char>>,
    sysroot_flag: Seq<char>,
    flags: Seq<Seq<char>>,
)
    ensures
        without_wrapper_path(raw, wrapper).is_prefix_of(
            spec_rustc_args(raw, wrapper, sysroot, sysroot_flag, flags),
        ),
{
    let base = without_wrapper_path(raw, wrapper);
    let args = with_sysroot(base, sysroot, sysroot_flag);
    assert(base.is_prefix_of(args));
    if !spec_is_info_query(args) {
        lemma_injected_extends(args, flags);
    }
}

/// On a real compilation (not an info query) every injected flag's key is set in the result,
/// and when the invocation already sets all of them it gets no injected flag at all.
pub proof fn law_rustc_args_injection(
    raw: Seq<Seq<char>>,
    wrapper: bool,
    sysroot: Option<Seq<char>>,
    sysroot_flag: Seq<char>,
    flags: Seq<Seq<char>>,
)
    requires
        !spec_is_info_query(with_sysroot(without_wrapper_path(raw, wrapper), sysroot, sysroot_flag)),
    ensures
        forall|j: int|
            0 <= j < flags.len() ==> carries_flag(
                spec_rustc_args(raw, wrapper, sysroot, sysroot_flag, flags),
                flag_key(#[trigger] flags[j]),
            ),
        (forall|j: int|
            0 <= j < flags.len() ==> carries_flag(
                with_sysroot(without_wrapper_path(raw, wrapper), sysroot, sysroot_flag),
                flag_key(#[trigger] flags[j]),
            )) ==> spec_rustc_args(raw, wrapper, sysroot, sysroot_flag, flags) == with_sysroot(
            without_wrapper_path(raw, wrapper),
            sysroot,
            sysroot_flag,
        ),
{
    let args = with_sysroot(without_wrapper_path(raw, wrapper), sysroot, sysroot_flag);
    lemma_injected_keys_set(args, flags);
    if forall|j: int| 0 <= j < flags.len() ==> carries_flag(args, flag_key(#[trigger] flags[j])) {
        lemma_explicit_flags_win(args, flags);
    }
}

/// An info query (`-vV` or `--print`) gets no injected flag: only the sysroot, if any.
pub proof fn law_info_query_untouched(
    raw: Seq<Seq<char>>,
    wrapper: bool,
    sysroot: Option<Seq<char>>,
    sysroot_flag: Seq<char>,
    flags: Seq<Seq<char>>,
)
    requires
        spec_is_info_query(with_sysroot(without_wrapper_path(raw, wrapper), sysroot, sysroot_flag)),
    ensures
        spec_rustc_args(raw, wrapper, sysroot, sysroot_flag, flags) == with_sysroot(
            without_wrapper_path(raw, wrapper),
            sysroot,
            sysroot_flag,
        ),
{
}

/// Injection appends only the given flags, so it brings in no info-query argument of its own.
proof fn lemma_injected_not_info(args: Seq<Seq<char>>, flags: Seq<Seq<char>>)
    requires
        forall|i: int| 0 <= i < args.len() ==> !#[trigger] is_info_query_arg(args[i]),
        forall|j: int| 0 <= j < flags.len() ==> !#[trigger] is_info_query_arg(flags[j]),
    ensures
        !spec_is_info_query(with_injected(args, flags)),
    decreases flags.len(),
{
    if flags.len() > 0 {
        let next = if carries_flag(args, flag_key(flags[0])) {
            args
        } else {
            args.push(flags[0])
        };
        assert forall|i: int| 0 <= i < next.len() implies !#[trigger] is_info_query_arg(next[i]) by {
            if i < args.len() {
                assert(next[i] == args[i]);
            } else {
                assert(next[i] == flags[0]);
            }
        }
        let rest = flags.drop_first();
        assert forall|j: int| 0 <= j < rest.len() implies !#[trigger] is_info_query_arg(rest[j]) by {
            assert(rest[j] == flags[j + 1]);
        }
        lemma_injected_not_info(next, rest);
    }
}

/// Running the rewrite again on what it produced, outside wrapper mode, changes nothing: the
/// sysroot and every injected flag are already there. (An injected flag that is itself an info
/// query would turn the result into one, so such flags are left out.)
pub proof fn law_rustc_args_rerun(
    raw: Seq<Seq<char>>,
    wrapper: bool,
    sysroot: Option<Seq<char>>,
    sysroot_flag: Seq<char>,
    flags: Seq<Seq<char>>,
)
    requires
        forall|j: int| 0 <= j < flags.len() ==> !#[trigger] is_info_query_arg(flags[j]),
    ensures
        spec_rustc_args(
            spec_rustc_args(raw, wrapper, sysroot, sysroot_flag, flags),
            false,
            sysroot,
            sysroot_flag,
            flags,
        ) == spec_rustc_args(raw, wrapper, sysroot, sysroot_flag, flags),
{
    let base = without_wrapper_path(raw, wrapper);
    let mid = with_sysroot(base, sysroot, sysroot_flag);
    let out = spec_rustc_args(raw, wrapper, sysroot, sysroot_flag, flags);
    if sysroot is Some && !carries_flag(base, sysroot_flag) {
        assert(mid[base.len() as int] == sysroot_flag);
        assert(sets_flag(mid[base.len() as int], sysroot_flag));
    }
    if !spec_is_info_query(mid) {
        lemma_injected_extends(mid, flags);
        assert(out =~= mid + out.subrange(mid.len() as int, out.len() as int));
    } else {
        assert(out =~= mid + out.subrange(mid.len() as int, out.len() as int));
    }
    if sysroot is Some {
        lemma_carries_extends(mid, out.subrange(mid.len() as int, out.len() as int), sysroot_flag);
    }
    assert(with_sysroot(without_wrapper_path(out, false), sysroot, sysroot_flag) == out);
    if !spec_is_info_query(mid) {
        assert forall|i: int| 0 <= i < mid.len() implies !#[trigger] is_info_query_arg(mid[i]) by {
            if is_info_query_arg(mid[i]) {
                assert(spec_is_info_query(mid));
            }
        }
        lemma_injected_not_info(mid, flags);
        lemma_injected_keys_set(mid, flags);
        lemma_explicit_flags_win(out, flags);
    }
}

} // verus!
