//! The window service: utility windows with their size, minimum size and remembered
//! position.
use vstd::prelude::*;
use crate::id_vec::IdVec;
use crate::storage::{entry_size, PluginStorage, StorageError, STORAGE_QUOTA_BYTES};
use crate::text::{decimal, push_decimal, push_signed_decimal, push_str, signed_decimal};

verus! {

/// Where a window is and how large it is.
#[derive(Debug, Clone, Copy)]
pub struct WindowPosition {
    pub x: i32,
    pub y: i32,
    pub width: u32,
    pub height: u32,
}

/// A window as the service knows it.
struct WindowEntry {
    id: u32,
    title: String,
    width: u32,
    height: u32,
    min_width: u32,
    min_height: u32,
    position: Option<WindowPosition>,
}

/// A window as a mathematical value.
pub ghost struct WindowState {
    pub title: Seq<char>,
    pub width: u32,
    pub height: u32,
    pub min_width: u32,
    pub min_height: u32,
    pub position: Option<WindowPosition>,
}

impl WindowEntry {
    spec fn state(&self) -> WindowState {
        WindowState {
            title: self.title@,
            width: self.width,
            height: self.height,
            min_width: self.min_width,
            min_height: self.min_height,
            position: self.position,
        }
    }
}

/// Why the window service refused a request.
#[derive(Debug, Clone, Copy, PartialEq, Eq)]
pub enum WindowError {
    /// No window has this id.
    NotFound,
    /// The plugin storage refused to keep the position.
    Storage(StorageError),
}

/// The storage key of a window's position: `window_pos_ID`.
pub open spec fn position_key(window_id: u32) -> Seq<char> {
    "window_pos_"@ + decimal(window_id as nat)
}

/// The JSON text of a position as stored: an object with its members in key order,
/// `{"height":H,"width":W,"x":X,"y":Y}`.
pub open spec fn position_text(p: WindowPosition) -> Seq<char> {
    "{\"height\":"@ + decimal(p.height as nat) + ",\"width\":"@ + decimal(p.width as nat) + ",\"x\":"@
        + signed_decimal(p.x as int) + ",\"y\":"@ + signed_decimal(p.y as int) + "}"@
}

/// The position saved for a window: the one it was given, else 100, 100 with its size.
pub open spec fn saved_position(w: WindowState) -> WindowPosition {
    match w.position {
        Some(p) => p,
        None => WindowPosition { x: 100, y: 100, width: w.width, height: w.height },
    }
}

fn position_key_string(window_id: u32) -> (r: String)
    ensures
        r@ == position_key(window_id),
{
    let mut s = String::new();
    push_str(&mut s, "window_pos_");
    push_decimal(&mut s, window_id as u64);
    s
}

fn position_text_string(p: WindowPosition) -> (r: String)
    ensures
        r@ == position_text(p),
{
    let mut s = String::new();
    push_str(&mut s, "{\"height\":");
    push_decimal(&mut s, p.height as u64);
    push_str(&mut s, ",\"width\":");
    push_decimal(&mut s, p.width as u64);
    push_str(&mut s, ",\"x\":");
    push_signed_decimal(&mut s, p.x as i64);
    push_str(&mut s, ",\"y\":");
    push_signed_decimal(&mut s, p.y as i64);
    push_str(&mut s, "}");
    proof {
        assert(s@ =~= position_text(p));
    }
    s
}

/// The larger of two sizes.
pub open spec fn max_u32(a: u32, b: u32) -> u32 {
    if a >= b {
        a
    } else {
        b
    }
}

/// Creates, closes and resizes utility windows; ids are handed out from 1 upwards and
/// never reused.
pub struct WindowService {
    next_id: u32,
    windows: IdVec<WindowEntry>,
}

impl WindowService {
    /// The windows are well formed, each stored under its own id, all ids below the next.
    pub closed spec fn wf(&self) -> bool {
        &&& self.windows.wf()
        &&& self.next_id >= 1
        &&& forall|k: u32| #[trigger]
            self.windows.as_map().dom().contains(k) ==> k < self.next_id && self.windows.as_map()[k].id
                == k
    }

    /// The open windows, by id.
    pub closed spec fn view(&self) -> Map<u32, WindowState> {
        self.windows.as_map().map_values(|e: WindowEntry| e.state())
    }

    /// The id the next window will get.
    pub closed spec fn next_id(&self) -> u32 {
        self.next_id
    }

    /// A service with no window; the first window gets id 1.
    pub fn new() -> (r: Self)
        ensures
            r.wf(),
            r.view() == Map::<u32, WindowState>::empty(),
            r.next_id() == 1,
    {
        let r = WindowService { next_id: 1, windows: IdVec::new() };
        proof {
            assert(r.view() =~= Map::<u32, WindowState>::empty());
        }
        r
    }

    /// Opens a window of the given size (minimum size 300 by 200) and returns its id.
    pub fn create(&mut self, title: &str, width: u32, height: u32) -> (r: Result<u32, WindowError>)
        requires
            old(self).wf(),
            old(self).next_id() < u32::MAX,
        ensures
            final(self).wf(),
            r == Ok::<u32, WindowError>(old(self).next_id()),
            final(self).next_id() == old(self).next_id() + 1,
            !old(self).view().dom().contains(old(self).next_id()),
            final(self).view() == old(self).view().insert(
                old(self).next_id(),
                WindowState {
                    title: title@,
                    width,
                    height,
                    min_width: 300,
                    min_height: 200,
                    position: None,
                },
            ),
    {
        let id = self.next_id;
        self.next_id = self.next_id + 1;
        let entry = WindowEntry {
            id,
            title: title.to_owned(),
            width,
            height,
            min_width: 300,
            min_height: 200,
            position: None,
        };
        let ghost es = entry.state();
        self.windows.insert(id, entry);
        proof {
            assert(self.view() =~= old(self).view().insert(id, es));
        }
        Ok(id)
    }

    /// Closes a window; refused when there is none with that id.
    pub fn close(&mut self, window_id: u32) -> (r: Result<(), WindowError>)
        requires
            old(self).wf(),
        ensures
            final(self).wf(),
            final(self).next_id() == old(self).next_id(),
            r is Ok <==> old(self).view().dom().contains(window_id),
            final(self).view() == old(self).view().remove(window_id),
    {
        let removed = self.windows.remove(window_id);
        proof {
            assert(self.view() =~= old(self).view().remove(window_id));
        }
        match removed {
            Some(_) => Ok(()),
            None => Err(WindowError::NotFound),
        }
    }

    /// Resizes a window, never below its minimum size; refused when there is none with that id.
    pub fn resize(&mut self, window_id: u32, width: u32, height: u32) -> (r: Result<(), WindowError>)
        requires
            old(self).wf(),
        ensures
            final(self).wf(),
            final(self).next_id() == old(self).next_id(),
            r is Ok <==> old(self).view().dom().contains(window_id),
            r is Ok ==> final(self).view() == old(self).view().insert(
                window_id,
                WindowState {
                    width: max_u32(width, old(self).view()[window_id].min_width),
                    height: max_u32(height, old(self).view()[window_id].min_height),
                    ..old(self).view()[window_id]
                },
            ),
            r is Err ==> final(self).view() == old(self).view(),
    {
        proof {
            self.windows.lemma_as_map();
        }
        let updated = match self.windows.get(window_id) {
            None => {
                return Err(WindowError::NotFound);
            },
            Some(e) => WindowEntry {
                id: e.id,
                title: e.title.clone(),
                width: if width >= e.min_width {
                    width
                } else {
                    e.min_width
                },
                height: if height >= e.min_height {
                    height
                } else {
                    e.min_height
                },
                min_width: e.min_width,
                min_height: e.min_height,
                position: e.position,
            },
        };
        let ghost us = updated.state();
        self.windows.insert(window_id, updated);
        proof {
            assert(self.view() =~= old(self).view().insert(window_id, us));
        }
        Ok(())
    }

    /// Sets a window's minimum size, growing the window when it is now too small; refused
    /// when there is none with that id.
    pub fn set_min_size(&mut self, window_id: u32, width: u32, height: u32) -> (r: Result<(), WindowError>)
        requires
            old(self).wf(),
        ensures
            final(self).wf(),
            final(self).next_id() == old(self).next_id(),
            r is Ok <==> old(self).view().dom().contains(window_id),
            r is Ok ==> final(self).view() == old(self).view().insert(
                window_id,
                WindowState {
                    min_width: width,
                    min_height: height,
                    width: max_u32(old(self).view()[window_id].width, width),
                    height: max_u32(old(self).view()[window_id].height, height),
                    ..old(self).view()[window_id]
                },
            ),
            r is Err ==> final(self).view() == old(self).view(),
    {
        proof {
            self.windows.lemma_as_map();
        }
        let updated = match self.windows.get(window_id) {
            None => {
                return Err(WindowError::NotFound);
            },
            Some(e) => WindowEntry {
                id: e.id,
                title: e.title.clone(),
                width: if e.width < width {
                    width
                } else {
                    e.width
                },
                height: if e.height < height {
                    height
                } else {
                    e.height
                },
                min_width: width,
                min_height: height,
                position: e.position,
            },
        };
        let ghost us = updated.state();
        self.windows.insert(window_id, updated);
        proof {
            assert(self.view() =~= old(self).view().insert(window_id, us));
        }
        Ok(())
    }

    /// The ids of the open windows, each once, in no particular order.
    pub fn list(&self) -> (r: Vec<u32>)
        requires
            self.wf(),
        ensures
            r@.no_duplicates(),
            r@.to_set() == self.view().dom(),
    {
        proof {
            self.windows.lemma_wf();
            self.windows.lemma_as_map();
        }
        let n = self.windows.len();
        let mut out: Vec<u32> = Vec::new();
        for i in 0..n
            invariant
                n == self.windows.keys().len(),
                self.windows.wf(),
                out@ == self.windows.keys().take(i as int),
        {
            out.push(self.windows.key_at(i));
            proof {
                assert(out@ =~= self.windows.keys().take(i + 1));
            }
        }
        proof {
            assert(out@ =~= self.windows.keys());
            assert(self.view().dom() =~= self.windows.as_map().dom());
        }
        out
    }

    /// The title and size of a window.
    pub fn get(&self, window_id: u32) -> (r: Option<(String, u32, u32)>)
        requires
            self.wf(),
        ensures
            match r {
                Some((t, w, h)) => self.view().dom().contains(window_id) && t@ == self.view()[window_id].title
                    && w == self.view()[window_id].width && h == self.view()[window_id].height,
                None => !self.view().dom().contains(window_id),
            },
    {
        proof {
            self.windows.lemma_as_map();
        }
        match self.windows.get(window_id) {
            Some(e) => Some((e.title.clone(), e.width, e.height)),
            None => None,
        }
    }
}


impl WindowService {
    /// Keeps a window's position (see `saved_position`) in the plugin storage under
    /// `position_key`; refused when there is no such window or the storage refuses.
    pub fn save_position(&self, window_id: u32, storage: &mut PluginStorage) -> (r: Result<(), WindowError>)
        requires
            self.wf(),
            old(storage).wf(),
        ensures
            final(storage).wf(),
            final(storage).owner() == old(storage).owner(),
            !self.view().dom().contains(window_id) ==> r == Err::<(), WindowError>(WindowError::NotFound)
                && final(storage)@ == old(storage)@,
            self.view().dom().contains(window_id) ==> {
                let key = position_key(window_id);
                let text = position_text(saved_position(self.view()[window_id]));
                let old_entry: nat = if old(storage)@.dom().contains(key) {
                    entry_size(key, old(storage)@[key])
                } else {
                    0
                };
                let projected = old(storage).size() - old_entry + entry_size(key, text);
                &&& r is Ok <==> projected <= STORAGE_QUOTA_BYTES
                &&& r is Ok ==> final(storage)@ == old(storage)@.insert(key, text) && final(storage).size() == projected
                &&& r is Err ==> r == Err::<(), WindowError>(WindowError::Storage(StorageError::QuotaExceeded))
                    && final(storage)@ == old(storage)@
            },
    {
        proof {
            self.windows.lemma_as_map();
        }
        let pos = match self.windows.get(window_id) {
            None => {
                return Err(WindowError::NotFound);
            },
            Some(e) => match e.position {
                Some(p) => p,
                None => WindowPosition { x: 100, y: 100, width: e.width, height: e.height },
            },
        };
        let key = position_key_string(window_id);
        let text = position_text_string(pos);
        match storage.set(key.as_str(), text) {
            Ok(()) => Ok(()),
            Err(e) => Err(WindowError::Storage(e)),
        }
    }

    /// Gives a window the position read back from storage, when one was read
    /// (`restored`); refused when there is no such window.
    pub fn restore_position(&mut self, window_id: u32, restored: Option<WindowPosition>) -> (r: Result<(), WindowError>)
        requires
            old(self).wf(),
        ensures
            final(self).wf(),
            final(self).next_id() == old(self).next_id(),
            r is Ok <==> old(self).view().dom().contains(window_id),
            r is Err ==> r == Err::<(), WindowError>(WindowError::NotFound) && final(self).view() == old(self).view(),
            r is Ok ==> final(self).view() == (match restored {
                Some(p) => old(self).view().insert(window_id, WindowState { position: Some(p), ..old(self).view()[window_id] }),
                None => old(self).view(),
            }),
    {
        proof {
            self.windows.lemma_as_map();
        }
        let updated = match self.windows.get(window_id) {
            None => {
                return Err(WindowError::NotFound);
            },
            Some(e) => match restored {
                None => {
                    return Ok(());
                },
                Some(p) => WindowEntry {
                    id: e.id,
                    title: e.title.clone(),
                    width: e.width,
                    height: e.height,
                    min_width: e.min_width,
                    min_height: e.min_height,
                    position: Some(p),
                },
            },
        };
        let ghost us = updated.state();
        self.windows.insert(window_id, updated);
        proof {
            assert(self.view() =~= old(self).view().insert(window_id, us));
        }
        Ok(())
    }
}

} // verus!
