use vstd::prelude::*;
use crate::ast::{TrackType, TypeV};
use crate::checker::LinearChecker;
use crate::text::string_of;

verus! {

/// The names and types of a list of function entries.
pub open spec fn entries_view(v: Seq<(String, TrackType)>) -> Seq<(Seq<char>, TypeV)> {
    Seq::new(v.len(), |i: int| (v[i].0@, v[i].1@))
}

/// The function table after each entry is added in order, a later entry
/// replacing an earlier one of the same name.
pub open spec fn insert_all(m: Map<Seq<char>, Option<TypeV>>, s: Seq<(Seq<char>, TypeV)>) -> Map<
    Seq<char>,
    Option<TypeV>,
>
    decreases s.len(),
{
    if s.len() == 0 {
        m
    } else {
        insert_all(m, s.drop_last()).insert(s.last().0, Some(s.last().1))
    }
}

/// Adding entries keeps every name known and adds each entry's name.
pub proof fn lemma_insert_all_dom(m: Map<Seq<char>, Option<TypeV>>, s: Seq<(Seq<char>, TypeV)>)
    ensures
        m.dom().subset_of(insert_all(m, s).dom()),
        forall|k: int| 0 <= k < s.len() ==> insert_all(m, s).contains_key(#[trigger] s[k].0),
    decreases s.len(),
{
    if s.len() > 0 {
        lemma_insert_all_dom(m, s.drop_last());
        assert forall|k: int| 0 <= k < s.len() implies insert_all(m, s).contains_key(#[trigger] s[k].0) by {
            if k < s.len() - 1 {
                assert(s.drop_last()[k] == s[k]);
            }
        }
    }
}

/// The built-in functions that every program sees unless the checker is
/// barebones, in the order they are added.
pub open spec fn builtin_entries() -> Seq<(Seq<char>, TypeV)> {
    builtins_0() + builtins_1() + builtins_2() + builtins_3() + builtins_4() + builtins_5()
}

/// What a standard module exports, by its path with `/` separators.
pub open spec fn std_exports(norm: Seq<char>) -> Option<Seq<(Seq<char>, TypeV)>> {
    if norm == "std"@ {
        Some(exports_std())
    } else if norm == "std/io"@ {
        Some(exports_std_io())
    } else if norm == "std/fs"@ {
        Some(exports_std_fs())
    } else if norm == "std/sys"@ {
        Some(exports_std_sys())
    } else if norm == "std/mem"@ {
        Some(exports_std_mem())
    } else if norm == "math/vec"@ {
        Some(exports_math_vec())
    } else {
        None
    }
}

fn ptr_to_custom(name: &str) -> (t: TrackType)
    ensures
        t@ == TypeV::Ptr(Box::new(TypeV::Custom(name@))),
{
    let inner = TrackType::Custom(string_of(name));
    proof {
        assert(inner@ == TypeV::Custom(name@));
    }
    TrackType::Ptr(Box::new(inner))
}

fn ptr_to_void() -> (t: TrackType)
    ensures
        t@ == TypeV::Ptr(Box::new(TypeV::Void)),
{
    let inner = TrackType::Void;
    proof {
        assert(inner@ == TypeV::Void);
    }
    TrackType::Ptr(Box::new(inner))
}

fn push_entry(v: &mut Vec<(String, TrackType)>, name: &str, t: TrackType)
    ensures
        entries_view(final(v)@) == entries_view(old(v)@).push((name@, t@)),
{
    let ghost t_v = t@;
    v.push((string_of(name), t));
    proof {
        assert(entries_view(v@) =~= entries_view(old(v)@).push((name@, t_v)));
    }
}

/// The built-in functions, in the order they are added.
pub fn builtin_functions() -> (v: Vec<(String, TrackType)>)
    ensures
        entries_view(v@) == builtin_entries(),
{
    let mut v: Vec<(String, TrackType)> = Vec::new();
    proof {
        assert(entries_view(v@) =~= Seq::<(Seq<char>, TypeV)>::empty());
    }
    push_builtins_0(&mut v);
    push_builtins_1(&mut v);
    push_builtins_2(&mut v);
    push_builtins_3(&mut v);
    push_builtins_4(&mut v);
    push_builtins_5(&mut v);
    proof {
        assert(entries_view(v@) =~= builtin_entries());
    }
    v
}

/// What the standard module with the path `norm` exports, if it is one.
pub fn module_exports(norm: &String) -> (r: Option<Vec<(String, TrackType)>>)
    ensures
        match (r, std_exports(norm@)) {
            (Some(v), Some(s)) => entries_view(v@) == s,
            (None, None) => true,
            _ => false,
        },
{
    let mut v: Vec<(String, TrackType)> = Vec::new();
    proof {
        assert(entries_view(v@) =~= Seq::<(Seq<char>, TypeV)>::empty());
    }
    if norm.eq(&string_of("std")) {
        push_exports_std(&mut v);
    } else if norm.eq(&string_of("std/io")) {
        push_exports_std_io(&mut v);
    } else if norm.eq(&string_of("std/fs")) {
        push_exports_std_fs(&mut v);
    } else if norm.eq(&string_of("std/sys")) {
        push_exports_std_sys(&mut v);
    } else if norm.eq(&string_of("std/mem")) {
        push_exports_std_mem(&mut v);
    } else if norm.eq(&string_of("math/vec")) {
        push_exports_math_vec(&mut v);
    } else {
        return None;
    }
    proof {
        assert(entries_view(v@) =~= Seq::<(Seq<char>, TypeV)>::empty() + std_exports(norm@).unwrap());
    }
    Some(v)
}

impl LinearChecker {
    /// Adds each entry to the function table, in order.
    pub fn add_functions(&mut self, entries: &Vec<(String, TrackType)>)
        requires
            old(self).wf(),
        ensures
            final(self).wf(),
            final(self).functions.view() == insert_all(old(self).functions.view(), entries_view(entries@)),
            final(self).registry == old(self).registry,
            final(self).types == old(self).types,
            final(self).borrows == old(self).borrows,
            final(self).lens_locked == old(self).lens_locked,
            final(self).lens_aliases == old(self).lens_aliases,
            final(self).mutables == old(self).mutables,
            final(self).current_params == old(self).current_params,
            final(self).loaded_modules == old(self).loaded_modules,
            final(self).modules == old(self).modules,
            final(self).barebones == old(self).barebones,
            final(self).type_aliases == old(self).type_aliases,
            final(self).current_return_type == old(self).current_return_type,
            final(self).unions == old(self).unions,
    {
        let mut i: usize = 0;
        while i < entries.len()
            invariant
                self.wf(),
                self.current_return_type == old(self).current_return_type,
                self.unions == old(self).unions,
                i <= entries.len(),
                self.functions.view() == insert_all(
                    old(self).functions.view(),
                    entries_view(entries@).take(i as int),
                ),
                self.registry == old(self).registry,
                self.types == old(self).types,
                self.borrows == old(self).borrows,
                self.lens_locked == old(self).lens_locked,
                self.lens_aliases == old(self).lens_aliases,
                self.mutables == old(self).mutables,
                self.current_params == old(self).current_params,
                self.loaded_modules == old(self).loaded_modules,
                self.modules == old(self).modules,
                self.barebones == old(self).barebones,
                self.type_aliases == old(self).type_aliases,
            decreases entries.len() - i,
        {
            let ghost ev = entries_view(entries@);
            self.functions.insert(entries[i].0.clone(), Some(entries[i].1.copy()));
            proof {
                assert(ev.take(i + 1).drop_last() =~= ev.take(i as int));
                assert(ev.take(i + 1).last() == ev[i as int]);
            }
            i += 1;
        }
        proof {
            assert(entries_view(entries@).take(entries.len() as int) =~= entries_view(entries@));
        }
    }
}

/// A run of the built-in functions.
pub open spec fn builtins_0() -> Seq<(Seq<char>, TypeV)> {
    seq![
        ("print"@, TypeV::Void),
        ("alloc"@, TypeV::Ptr(Box::new(TypeV::Custom("u8"@)))),
        ("memset"@, TypeV::Void),
        ("memcpy"@, TypeV::Void),
        ("memcmp"@, TypeV::I32),
        ("str_len"@, TypeV::U32),
        ("str_eq"@, TypeV::Bool),
        ("str_from_literal"@, TypeV::Custom("Str"@)),
        ("str_concat"@, TypeV::Custom("Str"@)),
        ("vec_init"@, TypeV::Custom("Vec"@)),
        ("vec_push"@, TypeV::Void),
        ("vec_get"@, TypeV::I32),
        ("vec_set"@, TypeV::Void),
        ("vec_pop"@, TypeV::I32),
        ("print_str"@, TypeV::Void),
    ]
}

fn push_builtins_0(v: &mut Vec<(String, TrackType)>)
    ensures
        entries_view(final(v)@) == entries_view(old(v)@) + builtins_0(),
{
    let ghost start = entries_view(v@);
    push_entry(v, "print", TrackType::Void);
    push_entry(v, "alloc", ptr_to_custom("u8"));
    push_entry(v, "memset", TrackType::Void);
    push_entry(v, "memcpy", TrackType::Void);
    push_entry(v, "memcmp", TrackType::I32);
    push_entry(v, "str_len", TrackType::U32);
    push_entry(v, "str_eq", TrackType::Bool);
    push_entry(v, "str_from_literal", TrackType::Custom(string_of("Str")));
    push_entry(v, "str_concat", TrackType::Custom(string_of("Str")));
    push_entry(v, "vec_init", TrackType::Custom(string_of("Vec")));
    push_entry(v, "vec_push", TrackType::Void);
    push_entry(v, "vec_get", TrackType::I32);
    push_entry(v, "vec_set", TrackType::Void);
    push_entry(v, "vec_pop", TrackType::I32);
    push_entry(v, "print_str", TrackType::Void);
    proof {
        assert(entries_view(v@) =~= start + builtins_0());
    }
}

/// A run of the built-in functions.
pub open spec fn builtins_1() -> Seq<(Seq<char>, TypeV)> {
    seq![
        ("print_int"@, TypeV::Void),
        ("print_hex"@, TypeV::Void),
        ("read_line"@, TypeV::Custom("Str"@)),
        ("file_open"@, TypeV::Ptr(Box::new(TypeV::Custom("File"@)))),
        ("file_read_all"@, TypeV::Custom("Str"@)),
        ("file_write"@, TypeV::Void),
        ("ring_init"@, TypeV::Custom("Ring"@)),
        ("ring_push"@, TypeV::Bool),
        ("ring_pop"@, TypeV::I32),
        ("ring_peek"@, TypeV::I32),
        ("ring_full"@, TypeV::Bool),
        ("ring_empty"@, TypeV::Bool),
        ("ring_count"@, TypeV::U32),
        ("math_abs"@, TypeV::I32),
        ("math_max"@, TypeV::I32),
    ]
}

fn push_builtins_1(v: &mut Vec<(String, TrackType)>)
    ensures
        entries_view(final(v)@) == entries_view(old(v)@) + builtins_1(),
{
    let ghost start = entries_view(v@);
    push_entry(v, "print_int", TrackType::Void);
    push_entry(v, "print_hex", TrackType::Void);
    push_entry(v, "read_line", TrackType::Custom(string_of("Str")));
    push_entry(v, "file_open", ptr_to_custom("File"));
    push_entry(v, "file_read_all", TrackType::Custom(string_of("Str")));
    push_entry(v, "file_write", TrackType::Void);
    push_entry(v, "ring_init", TrackType::Custom(string_of("Ring")));
    push_entry(v, "ring_push", TrackType::Bool);
    push_entry(v, "ring_pop", TrackType::I32);
    push_entry(v, "ring_peek", TrackType::I32);
    push_entry(v, "ring_full", TrackType::Bool);
    push_entry(v, "ring_empty", TrackType::Bool);
    push_entry(v, "ring_count", TrackType::U32);
    push_entry(v, "math_abs", TrackType::I32);
    push_entry(v, "math_max", TrackType::I32);
    proof {
        assert(entries_view(v@) =~= start + builtins_1());
    }
}

/// A run of the built-in functions.
pub open spec fn builtins_2() -> Seq<(Seq<char>, TypeV)> {
    seq![
        ("math_min"@, TypeV::I32),
        ("math_pow"@, TypeV::I64),
        ("math_sqrt"@, TypeV::I64),
        ("math_clamp"@, TypeV::I64),
        ("math_random"@, TypeV::U64),
        ("str_find"@, TypeV::I64),
        ("str_to_int"@, TypeV::I64),
        ("int_to_str"@, TypeV::Custom("Str"@)),
        ("file_remove"@, TypeV::I32),
        ("file_size"@, TypeV::I64),
        ("sys_exec"@, TypeV::I32),
        ("sys_set_memory_limit"@, TypeV::Void),
        ("sys_get_memory_used"@, TypeV::I64),
        ("env_get"@, TypeV::Custom("Str"@)),
        ("math_abs"@, TypeV::I64),
    ]
}

fn push_builtins_2(v: &mut Vec<(String, TrackType)>)
    ensures
        entries_view(final(v)@) == entries_view(old(v)@) + builtins_2(),
{
    let ghost start = entries_view(v@);
    push_entry(v, "math_min", TrackType::I32);
    push_entry(v, "math_pow", TrackType::I64);
    push_entry(v, "math_sqrt", TrackType::I64);
    push_entry(v, "math_clamp", TrackType::I64);
    push_entry(v, "math_random", TrackType::U64);
    push_entry(v, "str_find", TrackType::I64);
    push_entry(v, "str_to_int", TrackType::I64);
    push_entry(v, "int_to_str", TrackType::Custom(string_of("Str")));
    push_entry(v, "file_remove", TrackType::I32);
    push_entry(v, "file_size", TrackType::I64);
    push_entry(v, "sys_exec", TrackType::I32);
    push_entry(v, "sys_set_memory_limit", TrackType::Void);
    push_entry(v, "sys_get_memory_used", TrackType::I64);
    push_entry(v, "env_get", TrackType::Custom(string_of("Str")));
    push_entry(v, "math_abs", TrackType::I64);
    proof {
        assert(entries_view(v@) =~= start + builtins_2());
    }
}

/// A run of the built-in functions.
pub open spec fn builtins_3() -> Seq<(Seq<char>, TypeV)> {
    seq![
        ("math_min"@, TypeV::I64),
        ("math_max"@, TypeV::I64),
        ("math_pow"@, TypeV::I64),
        ("math_sqrt"@, TypeV::I64),
        ("math_floor"@, TypeV::I64),
        ("math_ceil"@, TypeV::I64),
        ("math_round"@, TypeV::I64),
        ("print_err"@, TypeV::Void),
        ("eprint"@, TypeV::Void),
        ("str_contains"@, TypeV::I64),
        ("str_is_int"@, TypeV::I32),
        ("abort"@, TypeV::Void),
        ("env_exists"@, TypeV::I32),
        ("net_socket_tcp_listen"@, TypeV::I32),
        ("net_socket_accept"@, TypeV::I32),
    ]
}

fn push_builtins_3(v: &mut Vec<(String, TrackType)>)
    ensures
        entries_view(final(v)@) == entries_view(old(v)@) + builtins_3(),
{
    let ghost start = entries_view(v@);
    push_entry(v, "math_min", TrackType::I64);
    push_entry(v, "math_max", TrackType::I64);
    push_entry(v, "math_pow", TrackType::I64);
    push_entry(v, "math_sqrt", TrackType::I64);
    push_entry(v, "math_floor", TrackType::I64);
    push_entry(v, "math_ceil", TrackType::I64);
    push_entry(v, "math_round", TrackType::I64);
    push_entry(v, "print_err", TrackType::Void);
    push_entry(v, "eprint", TrackType::Void);
    push_entry(v, "str_contains", TrackType::I64);
    push_entry(v, "str_is_int", TrackType::I32);
    push_entry(v, "abort", TrackType::Void);
    push_entry(v, "env_exists", TrackType::I32);
    push_entry(v, "net_socket_tcp_listen", TrackType::I32);
    push_entry(v, "net_socket_accept", TrackType::I32);
    proof {
        assert(entries_view(v@) =~= start + builtins_3());
    }
}

/// A run of the built-in functions.
pub open spec fn builtins_4() -> Seq<(Seq<char>, TypeV)> {
    seq![
        ("net_socket_connect"@, TypeV::I32),
        ("net_socket_send"@, TypeV::I64),
        ("net_socket_recv"@, TypeV::I64),
        ("net_socket_close"@, TypeV::Void),
        ("os_args_count"@, TypeV::I32),
        ("os_arg"@, TypeV::Custom("Str"@)),
        ("dir_exists"@, TypeV::Bool),
        ("file_copy"@, TypeV::I32),
        ("process_spawn"@, TypeV::I32),
        ("char_is_digit"@, TypeV::Bool),
        ("char_is_alpha"@, TypeV::Bool),
        ("char_is_alphanumeric"@, TypeV::Bool),
        ("char_is_space"@, TypeV::Bool),
        ("char_to_upper"@, TypeV::U8),
        ("char_to_lower"@, TypeV::U8),
    ]
}

fn push_builtins_4(v: &mut Vec<(String, TrackType)>)
    ensures
        entries_view(final(v)@) == entries_view(old(v)@) + builtins_4(),
{
    let ghost start = entries_view(v@);
    push_entry(v, "net_socket_connect", TrackType::I32);
    push_entry(v, "net_socket_send", TrackType::I64);
    push_entry(v, "net_socket_recv", TrackType::I64);
    push_entry(v, "net_socket_close", TrackType::Void);
    push_entry(v, "os_args_count", TrackType::I32);
    push_entry(v, "os_arg", TrackType::Custom(string_of("Str")));
    push_entry(v, "dir_exists", TrackType::Bool);
    push_entry(v, "file_copy", TrackType::I32);
    push_entry(v, "process_spawn", TrackType::I32);
    push_entry(v, "char_is_digit", TrackType::Bool);
    push_entry(v, "char_is_alpha", TrackType::Bool);
    push_entry(v, "char_is_alphanumeric", TrackType::Bool);
    push_entry(v, "char_is_space", TrackType::Bool);
    push_entry(v, "char_to_upper", TrackType::U8);
    push_entry(v, "char_to_lower", TrackType::U8);
    proof {
        assert(entries_view(v@) =~= start + builtins_4());
    }
}

/// A run of the built-in functions.
pub open spec fn builtins_5() -> Seq<(Seq<char>, TypeV)> {
    seq![
        ("str_starts_with"@, TypeV::Bool),
        ("str_ends_with"@, TypeV::Bool),
        ("str_substr"@, TypeV::Custom("Str"@)),
        ("str_trim"@, TypeV::Custom("Str"@)),
        ("str_char_at"@, TypeV::U8),
        ("mem_realloc"@, TypeV::Ptr(Box::new(TypeV::Custom("u8"@)))),
        ("vec_reserve"@, TypeV::Void),
        ("vec_clear"@, TypeV::Void),
        ("vec_len"@, TypeV::I32),
        ("path_basename"@, TypeV::Custom("Str"@)),
        ("path_ext"@, TypeV::Custom("Str"@)),
        ("path_join"@, TypeV::Custom("Str"@)),
    ]
}

fn push_builtins_5(v: &mut Vec<(String, TrackType)>)
    ensures
        entries_view(final(v)@) == entries_view(old(v)@) + builtins_5(),
{
    let ghost start = entries_view(v@);
    push_entry(v, "str_starts_with", TrackType::Bool);
    push_entry(v, "str_ends_with", TrackType::Bool);
    push_entry(v, "str_substr", TrackType::Custom(string_of("Str")));
    push_entry(v, "str_trim", TrackType::Custom(string_of("Str")));
    push_entry(v, "str_char_at", TrackType::U8);
    push_entry(v, "mem_realloc", ptr_to_custom("u8"));
    push_entry(v, "vec_reserve", TrackType::Void);
    push_entry(v, "vec_clear", TrackType::Void);
    push_entry(v, "vec_len", TrackType::I32);
    push_entry(v, "path_basename", TrackType::Custom(string_of("Str")));
    push_entry(v, "path_ext", TrackType::Custom(string_of("Str")));
    push_entry(v, "path_join", TrackType::Custom(string_of("Str")));
    proof {
        assert(entries_view(v@) =~= start + builtins_5());
    }
}

/// What the module `std` exports.
pub open spec fn exports_std() -> Seq<(Seq<char>, TypeV)> {
    seq![
        ("print"@, TypeV::Void),
        ("println"@, TypeV::Void),
        ("eprint"@, TypeV::Void),
        ("read"@, TypeV::I64),
        ("alloc"@, TypeV::Ptr(Box::new(TypeV::Void))),
        ("dealloc"@, TypeV::Void),
        ("exit"@, TypeV::Void),
        ("abort"@, TypeV::Void),
        ("clock_ms"@, TypeV::I64),
        ("io::print"@, TypeV::Void),
        ("io::println"@, TypeV::Void),
        ("io::read"@, TypeV::I64),
        ("io::eprint"@, TypeV::Void),
        ("fs::file_open"@, TypeV::Ptr(Box::new(TypeV::Void))),
        ("fs::file_close"@, TypeV::Void),
        ("fs::file_exists"@, TypeV::I32),
        ("fs::file_copy"@, TypeV::I32),
        ("fs::file_size"@, TypeV::I64),
        ("fs::dir_exists"@, TypeV::Bool),
        ("mem::alloc"@, TypeV::Ptr(Box::new(TypeV::Void))),
        ("mem::dealloc"@, TypeV::Void),
        ("sys::exit"@, TypeV::Void),
        ("sys::abort"@, TypeV::Void),
        ("sys::clock_ms"@, TypeV::I64),
        ("char::char_is_digit"@, TypeV::Bool),
        ("str::str_find"@, TypeV::I64),
        ("process::process_spawn"@, TypeV::I32),
        ("net::net_socket_tcp_listen"@, TypeV::I32),
    ]
}

fn push_exports_std(v: &mut Vec<(String, TrackType)>)
    ensures
        entries_view(final(v)@) == entries_view(old(v)@) + exports_std(),
{
    let ghost start = entries_view(v@);
    push_entry(v, "print", TrackType::Void);
    push_entry(v, "println", TrackType::Void);
    push_entry(v, "eprint", TrackType::Void);
    push_entry(v, "read", TrackType::I64);
    push_entry(v, "alloc", ptr_to_void());
    push_entry(v, "dealloc", TrackType::Void);
    push_entry(v, "exit", TrackType::Void);
    push_entry(v, "abort", TrackType::Void);
    push_entry(v, "clock_ms", TrackType::I64);
    push_entry(v, "io::print", TrackType::Void);
    push_entry(v, "io::println", TrackType::Void);
    push_entry(v, "io::read", TrackType::I64);
    push_entry(v, "io::eprint", TrackType::Void);
    push_entry(v, "fs::file_open", ptr_to_void());
    push_entry(v, "fs::file_close", TrackType::Void);
    push_entry(v, "fs::file_exists", TrackType::I32);
    push_entry(v, "fs::file_copy", TrackType::I32);
    push_entry(v, "fs::file_size", TrackType::I64);
    push_entry(v, "fs::dir_exists", TrackType::Bool);
    push_entry(v, "mem::alloc", ptr_to_void());
    push_entry(v, "mem::dealloc", TrackType::Void);
    push_entry(v, "sys::exit", TrackType::Void);
    push_entry(v, "sys::abort", TrackType::Void);
    push_entry(v, "sys::clock_ms", TrackType::I64);
    push_entry(v, "char::char_is_digit", TrackType::Bool);
    push_entry(v, "str::str_find", TrackType::I64);
    push_entry(v, "process::process_spawn", TrackType::I32);
    push_entry(v, "net::net_socket_tcp_listen", TrackType::I32);
    proof {
        assert(entries_view(v@) =~= start + exports_std());
    }
}

/// What the module `std/io` exports.
pub open spec fn exports_std_io() -> Seq<(Seq<char>, TypeV)> {
    seq![
        ("print"@, TypeV::Void),
        ("println"@, TypeV::Void),
        ("read"@, TypeV::I64),
        ("eprint"@, TypeV::Void),
    ]
}

fn push_exports_std_io(v: &mut Vec<(String, TrackType)>)
    ensures
        entries_view(final(v)@) == entries_view(old(v)@) + exports_std_io(),
{
    let ghost start = entries_view(v@);
    push_entry(v, "print", TrackType::Void);
    push_entry(v, "println", TrackType::Void);
    push_entry(v, "read", TrackType::I64);
    push_entry(v, "eprint", TrackType::Void);
    proof {
        assert(entries_view(v@) =~= start + exports_std_io());
    }
}

/// What the module `std/fs` exports.
pub open spec fn exports_std_fs() -> Seq<(Seq<char>, TypeV)> {
    seq![
        ("file_open"@, TypeV::Ptr(Box::new(TypeV::Void))),
        ("file_close"@, TypeV::Void),
        ("file_exists"@, TypeV::I32),
    ]
}

fn push_exports_std_fs(v: &mut Vec<(String, TrackType)>)
    ensures
        entries_view(final(v)@) == entries_view(old(v)@) + exports_std_fs(),
{
    let ghost start = entries_view(v@);
    push_entry(v, "file_open", ptr_to_void());
    push_entry(v, "file_close", TrackType::Void);
    push_entry(v, "file_exists", TrackType::I32);
    proof {
        assert(entries_view(v@) =~= start + exports_std_fs());
    }
}

/// What the module `std/sys` exports.
pub open spec fn exports_std_sys() -> Seq<(Seq<char>, TypeV)> {
    seq![
        ("exit"@, TypeV::Void),
        ("abort"@, TypeV::Void),
        ("clock_ms"@, TypeV::I64),
    ]
}

fn push_exports_std_sys(v: &mut Vec<(String, TrackType)>)
    ensures
        entries_view(final(v)@) == entries_view(old(v)@) + exports_std_sys(),
{
    let ghost start = entries_view(v@);
    push_entry(v, "exit", TrackType::Void);
    push_entry(v, "abort", TrackType::Void);
    push_entry(v, "clock_ms", TrackType::I64);
    proof {
        assert(entries_view(v@) =~= start + exports_std_sys());
    }
}

/// What the module `std/mem` exports.
pub open spec fn exports_std_mem() -> Seq<(Seq<char>, TypeV)> {
    seq![
        ("alloc"@, TypeV::Ptr(Box::new(TypeV::Void))),
        ("dealloc"@, TypeV::Void),
    ]
}

fn push_exports_std_mem(v: &mut Vec<(String, TrackType)>)
    ensures
        entries_view(final(v)@) == entries_view(old(v)@) + exports_std_mem(),
{
    let ghost start = entries_view(v@);
    push_entry(v, "alloc", ptr_to_void());
    push_entry(v, "dealloc", TrackType::Void);
    proof {
        assert(entries_view(v@) =~= start + exports_std_mem());
    }
}

/// What the module `math/vec` exports.
pub open spec fn exports_math_vec() -> Seq<(Seq<char>, TypeV)> {
    seq![
        ("add"@, TypeV::I64),
        ("sub"@, TypeV::I64),
        ("dot"@, TypeV::I64),
        ("cross"@, TypeV::I64),
    ]
}

fn push_exports_math_vec(v: &mut Vec<(String, TrackType)>)
    ensures
        entries_view(final(v)@) == entries_view(old(v)@) + exports_math_vec(),
{
    let ghost start = entries_view(v@);
    push_entry(v, "add", TrackType::I64);
    push_entry(v, "sub", TrackType::I64);
    push_entry(v, "dot", TrackType::I64);
    push_entry(v, "cross", TrackType::I64);
    proof {
        assert(entries_view(v@) =~= start + exports_math_vec());
    }
}

} // verus!
