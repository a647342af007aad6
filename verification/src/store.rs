//! A model of the files that an engine works on.
//!
//! A store maps each path at which a file exists to the content of that
//! file. Each operation that an engine asks for has its meaning here: a
//! rename moves a whole file in one step, and nothing else ever touches the
//! file at another path than the one that is named.

use vstd::prelude::*;
use crate::engine::WriterOptions;

verus! {

/// The files that exist, each with its content.
pub type Store = Map<Seq<u8>, Seq<u8>>;

/// The content of the file at `path`, if there is one.
pub open spec fn entry(store: Store, path: Seq<u8>) -> Option<Seq<u8>> {
    if store.dom().contains(path) {
        Some(store[path])
    } else {
        None
    }
}

/// The store after the file at `path` was opened as `options` say: a file
/// that is missing is created empty if the options ask for it, one that is
/// there is emptied if they ask for that, and nothing changes otherwise.
pub open spec fn opened(store: Store, path: Seq<u8>, options: WriterOptions) -> Store {
    if store.dom().contains(path) {
        if options.truncate {
            store.insert(path, Seq::empty())
        } else {
            store
        }
    } else {
        if options.create {
            store.insert(path, Seq::empty())
        } else {
            store
        }
    }
}

/// The store after the writes to the open file at `path` have left it with
/// `content`.
pub open spec fn written(store: Store, path: Seq<u8>, content: Seq<u8>) -> Store {
    store.insert(path, content)
}

/// The store after the file at `from` was renamed to `to`: the file is gone
/// from `from`, and stands at `to` in place of whatever was there.
pub open spec fn renamed(store: Store, from: Seq<u8>, to: Seq<u8>) -> Store {
    if store.dom().contains(from) {
        store.remove(from).insert(to, store[from])
    } else {
        store
    }
}

/// The store after the file at `path` was removed, if there was one.
pub open spec fn removed(store: Store, path: Seq<u8>) -> Store {
    store.remove(path)
}

} // verus!
