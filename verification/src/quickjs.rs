//! The JavaScript program that runs code under QuickJS with the browser
//! shims that GlassHouse modules expect.

use vstd::prelude::*;
use crate::text::{push_str, quoted, push_quoted, str_eq, views};
use crate::path::{rel_path, rel_path_of};

verus! {

/// The start of every runner program: browser shims and a minimal
/// `GlassHouse` global.
pub const RUNNER_PREAMBLE: &'static str = r###"
'use strict';
// std, os, and bjson are available as globals when --std is used

// --- Browser API Shims for QuickJS ---
var global = globalThis;

// window global (GlassHouse assigns to window.GlassHouse)
var window = globalThis;

// performance.now() — used by glasshouse.js and ts-compiler.js
var performance = {
    now: function() { return Date.now(); }
};

// Blob constructor — used by lint.js for size measurement
var Blob = function(arr, opts) {
    if (arr && arr.length > 0) {
        this._data = typeof arr[0] === 'string' ? arr[0] : String(arr[0]);
    } else {
        this._data = '';
    }
};
Object.defineProperty(Blob.prototype, 'size', {
    get: function() {
        return typeof this._data === 'string' ? this._data.length : 0;
    },
    enumerable: true,
    configurable: true
});

// btoa — used by hyper-compactor.js for base64 encoding
var btoa = function(str) {
    var chars = 'ABCDEFGHIJKLMNOPQRSTUVWXYZabcdefghijklmnopqrstuvwxyz0123456789+/';
    var result = '';
    var bytes = [];
    for (var i = 0; i < str.length; i++) {
        var code = str.charCodeAt(i);
        if (code < 128) {
            bytes.push(code);
        } else if (code < 2048) {
            bytes.push(192 | (code >> 6));
            bytes.push(128 | (code & 63));
        } else {
            bytes.push(224 | (code >> 12));
            bytes.push(128 | ((code >> 6) & 63));
            bytes.push(128 | (code & 63));
        }
    }
    for (var i = 0; i < bytes.length; i += 3) {
        var b1 = bytes[i];
        var b2 = i + 1 < bytes.length ? bytes[i + 1] : -1;
        var b3 = i + 2 < bytes.length ? bytes[i + 2] : -1;
        result += chars.charAt(b1 >> 2);
        result += chars.charAt(((b1 & 3) << 4) | (b2 >= 0 ? (b2 >> 4) : 0));
        result += b2 >= 0 ? chars.charAt(((b2 & 15) << 2) | (b3 >= 0 ? (b3 >> 6) : 0)) : '=';
        result += b3 >= 0 ? chars.charAt(b3 & 63) : '=';
    }
    return result;
};

// TextEncoder — used by some modules
var TextEncoder = function() {};
TextEncoder.prototype.encode = function(str) {
    var arr = [];
    for (var i = 0; i < str.length; i++) {
        var c = str.charCodeAt(i);
        if (c < 128) {
            arr.push(c);
        } else if (c < 2048) {
            arr.push(192 | (c >> 6));
            arr.push(128 | (c & 63));
        } else {
            arr.push(224 | (c >> 12));
            arr.push(128 | ((c >> 6) & 63));
            arr.push(128 | (c & 63));
        }
    }
    return new Uint8Array(arr);
};

// setInterval / clearInterval — no-ops (we don't need stale collection in CLI)
var setInterval = function() { return 0; };
var clearInterval = function() {};

// _GlassHouse_init flag — the glasshouse.js IIFE will bootstrap GlassHouse
var _GlassHouse_init = true;

// Minimal GlassHouse stub (will be fully replaced by glasshouse.js IIFE)
// glasshouse.js does: window.GlassHouse = { ... }; Object.freeze(GlassHouse);
// We just need the global to exist so that define() calls in other files work.
// The glasshouse.js IIFE will mutate/overwrite this object.
var GlassHouse = {
    MAX_BLOCK_SIZE: 40960,
    MAX_TOTAL_SIZE: 262144,
    _blocks: Object.create(null),
    _loaded: Object.create(null),

    define: function(name, deps, factory) {
        this._blocks[name] = { deps: deps, factory: factory };
    },

    require: function(name) {
        if (this._loaded[name]) return this._loaded[name];
        var block = this._blocks[name];
        if (!block) throw new Error('Block not defined: ' + name);
        var resolved = [];
        for (var i = 0; i < block.deps.length; i++) {
            resolved.push(this.require(block.deps[i]));
        }
        var instance = block.factory.apply(null, resolved);
        this._loaded[name] = instance;
        return instance;
    },

    handler: function(name, config) {
        this._blocks[name] = { deps: config.deps || [], factory: config.factory || function() { return config; } };
    },

    pebble: function(name, config) {
        this._blocks[name] = { deps: [], factory: function() { return config; } };
        this._loaded[name] = config;
    },

    shine: function(name, config) {
        this._blocks[name] = { deps: [], factory: function() { return config; } };
        this._loaded[name] = config;
    },

    ready: function(cb) { if (typeof cb === 'function') cb(); },
    stats: {},
    listBlocks: function() { return Object.keys(this._blocks); }
};

"###;

/// The text that loads the modules, each after a comment that names it.
pub open spec fn modules_text(ms: Seq<(String, String)>) -> Seq<char>
    decreases ms.len(),
{
    if ms.len() == 0 {
        Seq::empty()
    } else {
        modules_text(ms.drop_last()) + "\n// ====== Module: "@ + ms.last().0@ + " ======\n"@ + ms.last().1@
            + "\n"@
    }
}

/// The runner program: the preamble, the modules in order, the user code,
/// and a clean exit.
pub open spec fn runner_text(ms: Seq<(String, String)>, user: Seq<char>) -> Seq<char> {
    RUNNER_PREAMBLE@ + modules_text(ms) + "\n// ====== User Code ======\n"@ + user + "\n"@ + "\nstd.exit(0);\n"@
}

pub fn build_runner_script(modules: &[(String, String)], user_code: &str) -> (r: String)
    ensures
        r@ == runner_text(modules@, user_code@),
{
    let mut s = String::new();
    push_str(&mut s, RUNNER_PREAMBLE);
    let mut i: usize = 0;
    while i < modules.len()
        invariant
            i <= modules@.len(),
            s@ == RUNNER_PREAMBLE@ + modules_text(modules@.take(i as int)),
        decreases modules.len() - i,
    {
        let ghost before = s@;
        push_str(&mut s, "\n// ====== Module: ");
        push_str(&mut s, modules[i].0.as_str());
        push_str(&mut s, " ======\n");
        push_str(&mut s, modules[i].1.as_str());
        push_str(&mut s, "\n");
        assert(modules@.take(i + 1).drop_last() =~= modules@.take(i as int));
        assert(s@ =~= RUNNER_PREAMBLE@ + modules_text(modules@.take(i + 1)));
        i = i + 1;
    }
    assert(modules@.take(modules@.len() as int) =~= modules@);
    push_str(&mut s, "\n// ====== User Code ======\n");
    push_str(&mut s, user_code);
    push_str(&mut s, "\n");
    push_str(&mut s, "\nstd.exit(0);\n");
    assert(s@ =~= runner_text(modules@, user_code@));
    s
}


/// One file handed to a runner program: its path relative to the project
/// root and its text, each escaped for a double-quoted string.
pub open spec fn source_entry(root: Seq<char>, f: (Seq<char>, Seq<char>)) -> Seq<char> {
    "{\"file\":\""@ + quoted(rel_path(root, f.0), false) + "\",\"source\":\""@ + quoted(f.1, true) + "\"}"@
}

/// The entries of `fs`, separated by commas.
pub open spec fn source_entries(root: Seq<char>, fs: Seq<(Seq<char>, Seq<char>)>) -> Seq<char>
    decreases fs.len(),
{
    if fs.len() == 0 {
        Seq::empty()
    } else if fs.len() == 1 {
        source_entry(root, fs[0])
    } else {
        source_entries(root, fs.drop_last()) + ","@ + source_entry(root, fs.last())
    }
}

pub open spec fn file_views(fs: Seq<(String, String)>) -> Seq<(Seq<char>, Seq<char>)> {
    fs.map_values(|f: (String, String)| (f.0@, f.1@))
}

/// The JavaScript array of files handed to a runner program.
pub open spec fn sources_json(root: Seq<char>, fs: Seq<(Seq<char>, Seq<char>)>) -> Seq<char> {
    "["@ + source_entries(root, fs) + "]"@
}

/// Appends the array of files (path and text) for a runner program.
pub fn push_sources_json(out: &mut String, root: &str, files: &[(String, String)])
    ensures
        final(out)@ == old(out)@ + sources_json(root@, file_views(files@)),
{
    let ghost fv = file_views(files@);
    push_str(out, "[");
    let mut i: usize = 0;
    while i < files.len()
        invariant
            i <= files@.len() == fv.len(),
            fv == file_views(files@),
            out@ == old(out)@ + "["@ + source_entries(root@, fv.take(i as int)),
        decreases files.len() - i,
    {
        assert(fv.take(i + 1).drop_last() =~= fv.take(i as int));
        assert(fv[i as int] == (files@[i as int].0@, files@[i as int].1@));
        let ghost before = out@;
        if i > 0 {
            push_str(out, ",");
        }
        let rel = rel_path_of(root, files[i].0.as_str());
        push_str(out, "{\"file\":\"");
        push_quoted(out, rel.as_str(), false);
        push_str(out, "\",\"source\":\"");
        push_quoted(out, files[i].1.as_str(), true);
        push_str(out, "\"}");
        proof {
            if i == 0 {
                assert(fv.take(1) =~= seq![fv[0]]);
                assert(out@ =~= before + source_entry(root@, fv[0]));
            } else {
                assert(out@ =~= before + ","@ + source_entry(root@, fv[i as int]));
            }
        }
        assert(out@ =~= old(out)@ + "["@ + source_entries(root@, fv.take(i + 1)));
        i = i + 1;
    }
    assert(fv.take(fv.len() as int) =~= fv);
    push_str(out, "]");
    assert(out@ =~= old(out)@ + sources_json(root@, fv));
}

} // verus!

verus! {

/// The file that holds the framework module `name`.
pub open spec fn module_file_spec(name: Seq<char>) -> Seq<char> {
    name + ".js"@
}

/// Whether the subdirectory whose entries are `entries` holds the module
/// file `file`.
pub open spec fn holds_file(entries: Seq<String>, file: Seq<char>) -> bool {
    views(entries).contains(file)
}

/// The file name under which the framework module `name` is looked for.
pub fn module_file(name: &str) -> (r: String)
    ensures
        r@ == module_file_spec(name@),
{
    let mut f = String::new();
    push_str(&mut f, name);
    push_str(&mut f, ".js");
    f
}

/// Which subdirectory of `glasshouse/` a module is loaded from, given the
/// entry names of each subdirectory in the order they were listed: the
/// first that holds `<name>.js`, or none.
pub fn module_dir(dirs: &[Vec<String>], name: &str) -> (r: Option<usize>)
    ensures
        match r {
            Some(j) => j < dirs@.len() && holds_file(dirs@[j as int]@, module_file_spec(name@))
                && forall|k: int| 0 <= k < j ==> !holds_file(#[trigger] dirs@[k]@, module_file_spec(name@)),
            None => forall|k: int| 0 <= k < dirs@.len() ==> !holds_file(#[trigger] dirs@[k]@, module_file_spec(name@)),
        },
{
    let file = module_file(name);
    let mut j: usize = 0;
    while j < dirs.len()
        invariant
            j <= dirs@.len(),
            file@ == module_file_spec(name@),
            forall|k: int| 0 <= k < j ==> !holds_file(#[trigger] dirs@[k]@, module_file_spec(name@)),
        decreases dirs.len() - j,
    {
        let entries = &dirs[j];
        let mut found = false;
        let mut i: usize = 0;
        while i < entries.len()
            invariant
                i <= entries@.len(),
                entries@ == dirs@[j as int]@,
                file@ == module_file_spec(name@),
                found == exists|m: int| 0 <= m < i && #[trigger] entries@[m]@ == file@,
            decreases entries.len() - i,
        {
            if str_eq(entries[i].as_str(), file.as_str()) {
                found = true;
            }
            i = i + 1;
        }
        if found {
            proof {
                let m = choose|m: int| 0 <= m < entries@.len() && #[trigger] entries@[m]@ == file@;
                assert(views(entries@)[m] == file@);
            }
            return Some(j);
        }
        proof {
            assert forall|m: int| 0 <= m < views(entries@).len() implies views(entries@)[m] != file@ by {
                assert(views(entries@)[m] == entries@[m]@);
            }
        }
        j = j + 1;
    }
    None
}

/// The error when no subdirectory holds a module.
pub fn module_not_found(name: &str) -> (r: String)
    ensures
        r@ == "Module '"@ + name@ + "' not found in glasshouse/"@,
{
    let mut e = String::from_str("Module '");
    push_str(&mut e, name);
    push_str(&mut e, "' not found in glasshouse/");
    e
}

} // verus!
