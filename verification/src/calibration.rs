//! Logic of the calibration tool that picks camera frames and crop regions.
use vstd::prelude::*;
use crate::client::{append, base_url, trim_slashes};
use crate::text::{dec, push_dec, string_from};

verus! {

/// Where the calibration tool takes its image from.
#[derive(Debug, Clone, Copy, PartialEq, Eq)]
pub enum SourceMode {
    File,
    Cam,
    Http,
}

/// The camera to keep selected after the camera list changed: the current one
/// if it is still listed, else the first listed, else camera 0.
pub open spec fn selected_camera(indices: Seq<u32>, current: u32) -> u32 {
    if indices.contains(current) {
        current
    } else if indices.len() > 0 {
        indices[0]
    } else {
        0
    }
}

/// The camera indices of a camera list.
pub open spec fn camera_indices(cameras: Seq<(u32, String)>) -> Seq<u32> {
    cameras.map_values(|c: (u32, String)| c.0)
}

/// The camera to keep selected after the camera list changed.
pub fn select_camera(cameras: &[(u32, String)], current: u32) -> (i: u32)
    ensures
        i == selected_camera(camera_indices(cameras@), current),
{
    let ghost idx = camera_indices(cameras@);
    let mut k: usize = 0;
    while k < cameras.len()
        invariant
            k <= cameras.len(),
            idx == camera_indices(cameras@),
            forall|j: int| 0 <= j < k ==> idx[j] != current,
        decreases cameras.len() - k,
    {
        if cameras[k].0 == current {
            assert(idx[k as int] == current);
            return current;
        }
        k = k + 1;
    }
    assert(!idx.contains(current));
    if cameras.len() > 0 {
        cameras[0].0
    } else {
        0
    }
}

/// The vision server's camera list: `{base}/cameras`, trailing slashes of
/// the base removed.
pub fn cameras_url(base: &str) -> (u: String)
    ensures
        u@ == trim_slashes(base@) + "/cameras"@,
{
    let mut s = base_url(base);
    append(&mut s, "/cameras");
    s
}

/// The vision server's frame capture of a camera: `{base}/capture?index={index}`.
pub fn capture_index_url(base: &str, index: u32) -> (u: String)
    ensures
        u@ == trim_slashes(base@) + "/capture?index="@ + dec(index as nat),
{
    let mut s = base_url(base);
    append(&mut s, "/capture?index=");
    push_dec(&mut s, index as u64);
    s
}

/// The calibration tool's vision-server source: the server's address, the
/// cameras it listed, the camera chosen, and the status line shown.
pub struct HttpSource {
    pub base_url: String,
    pub cameras: Vec<(u32, String)>,
    pub camera_index: u32,
    pub status: String,
}

impl HttpSource {
    /// No server yet: no cameras, camera 0, empty status.
    pub fn new() -> (h: HttpSource)
        ensures
            h.base_url@ == Seq::<char>::empty(),
            h.cameras@ == Seq::<(u32, String)>::empty(),
            h.camera_index == 0,
            h.status@ == Seq::<char>::empty(),
    {
        HttpSource { base_url: String::new(), cameras: Vec::new(), camera_index: 0, status: String::new() }
    }

    /// Begins listing the cameras: the status says so, and the URL to fetch
    /// is returned.
    pub fn fetch_cameras(&mut self) -> (url: String)
        ensures
            url@ == trim_slashes(old(self).base_url@) + "/cameras"@,
            final(self).status@ == "Fetching cameras…"@,
            final(self).base_url == old(self).base_url,
            final(self).cameras == old(self).cameras,
            final(self).camera_index == old(self).camera_index,
    {
        let url = cameras_url(self.base_url.as_str());
        self.status = string_from("Fetching cameras…");
        url
    }

    /// Begins capturing a frame of the chosen camera: the status says so, and
    /// the URL to fetch is returned.
    pub fn fetch_capture(&mut self) -> (url: String)
        ensures
            url@ == trim_slashes(old(self).base_url@) + "/capture?index="@ + dec(
                old(self).camera_index as nat,
            ),
            final(self).status@ == "Capturing…"@,
            final(self).base_url == old(self).base_url,
            final(self).cameras == old(self).cameras,
            final(self).camera_index == old(self).camera_index,
    {
        let url = capture_index_url(self.base_url.as_str(), self.camera_index);
        self.status = string_from("Capturing…");
        url
    }

    /// Takes the outcome of listing the cameras: a list replaces the cameras,
    /// keeps the chosen camera if still listed (else the first, else 0) and
    /// clears the status; a failure shows `Error: ` and its message.
    pub fn on_cameras(&mut self, result: Result<Vec<(u32, String)>, String>)
        ensures
            final(self).base_url == old(self).base_url,
            match result {
                Ok(list) => {
                    &&& final(self).cameras@ == list@
                    &&& final(self).camera_index == selected_camera(
                        camera_indices(list@),
                        old(self).camera_index,
                    )
                    &&& final(self).status@ == Seq::<char>::empty()
                },
                Err(e) => {
                    &&& final(self).cameras == old(self).cameras
                    &&& final(self).camera_index == old(self).camera_index
                    &&& final(self).status@ == "Error: "@ + e@
                },
            },
    {
        match result {
            Ok(list) => {
                self.camera_index = select_camera(list.as_slice(), self.camera_index);
                self.cameras = list;
                self.status = String::new();
            },
            Err(e) => {
                let mut m = string_from("Error: ");
                append(&mut m, e.as_str());
                self.status = m;
            },
        }
    }

    /// A capture finished (either way): the status is cleared.
    pub fn on_capture(&mut self)
        ensures
            final(self).status@ == Seq::<char>::empty(),
            final(self).base_url == old(self).base_url,
            final(self).cameras == old(self).cameras,
            final(self).camera_index == old(self).camera_index,
    {
        self.status = String::new();
    }
}

} // verus!
