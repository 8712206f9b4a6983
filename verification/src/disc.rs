use vstd::prelude::*;
use vstd::string::StringExecFns;
use crate::b64::{b64_encode, b64_rep, lemma_b64_rep_ascii};
use crate::sha::{sha1_digest, sha1_of};
use crate::text::{
    ascii_chars, dec_rep, digit_sum, hex_rep, is_ascii_seq, lemma_dec_rep_ascii,
    lemma_digit_sum_le, lemma_hex_rep_ascii, push_dec, push_hex, string_from_ascii,
    digit_sum_exec,
};

verus! {

/// The mathematical content of a disc's table of contents: the first and
/// last track numbers, the offset table (the leadout sector count first,
/// then one starting offset per track), and the optional media catalog
/// number and per-track ISRC texts.
pub struct DiscData {
    pub first: int,
    pub last: int,
    pub offsets: Seq<int>,
    pub mcn: Seq<char>,
    pub isrcs: Seq<Seq<char>>,
}

/// The integer values of a vector of sector counts.
pub open spec fn int_values(s: Seq<i32>) -> Seq<int> {
    s.map_values(|x: i32| x as int)
}

/// Track numbers lie between one and ninety-nine, the offset table holds
/// the leadout and one entry per track, every offset is a sector count no
/// larger than the leadout, and there is one ISRC slot per track.
pub open spec fn wf_data(d: DiscData) -> bool {
    &&& 1 <= d.first <= d.last <= 99
    &&& d.offsets.len() == d.last - d.first + 2
    &&& 0 <= d.offsets[0] <= i32::MAX
    &&& forall|i: int| 1 <= i < d.offsets.len() ==> 0 <= #[trigger] d.offsets[i] <= d.offsets[0]
    &&& d.isrcs.len() == d.last - d.first + 1
}

/// The last track number named by an offset table of `n_offsets` entries
/// that starts at track `first`.
pub open spec fn spec_last(first: int, n_offsets: int) -> int {
    first + n_offsets - 2
}

/// Track limits a table of contents may carry.
pub open spec fn valid_limits(first: int, n_offsets: int) -> bool {
    &&& 1 <= first
    &&& 2 <= n_offsets
    &&& spec_last(first, n_offsets) <= 99
}

/// Every entry is a non-negative sector count, and no track starts past
/// the leadout.
pub open spec fn valid_offsets(offs: Seq<int>) -> bool {
    &&& 0 <= offs[0]
    &&& forall|i: int| 1 <= i < offs.len() ==> 0 <= #[trigger] offs[i] <= offs[0]
}

/// The number of tracks on the disc.
pub open spec fn track_count(d: DiscData) -> int {
    d.last - d.first + 1
}

/// The starting sector of a track.
pub open spec fn track_offset_of(d: DiscData, t: int) -> int {
    d.offsets[t - d.first + 1]
}

/// The length of a track in sectors: the gap to the next track's start,
/// or to the leadout for the last track.
pub open spec fn track_length_of(d: DiscData, t: int) -> int {
    (if t < d.last {
        d.offsets[t - d.first + 2]
    } else {
        d.offsets[0]
    }) - track_offset_of(d, t)
}

/// The numbers of a table of contents in reading order — first track, last
/// track, leadout, then each track's offset — joined by `sep`; here the
/// tail of the list, covering the first `k` tracks.
pub open spec fn toc_tail(offs: Seq<int>, k: int, sep: u8) -> Seq<u8>
    decreases k,
{
    if k <= 0 {
        Seq::<u8>::empty()
    } else {
        toc_tail(offs, k - 1, sep) + seq![sep] + dec_rep(offs[k] as nat)
    }
}

/// The full number list of a table of contents, joined by `sep`.
pub open spec fn toc_numbers(d: DiscData, sep: u8) -> Seq<u8> {
    dec_rep(d.first as nat) + seq![sep] + dec_rep(d.last as nat) + seq![sep] + dec_rep(
        d.offsets[0] as nat,
    ) + toc_tail(d.offsets, track_count(d), sep)
}

/// A number list is ASCII whenever its separator is.
pub proof fn lemma_toc_tail_ascii(offs: Seq<int>, k: int, sep: u8)
    requires
        sep < 128,
    ensures
        is_ascii_seq(toc_tail(offs, k, sep)),
    decreases k,
{
    if k > 0 {
        lemma_toc_tail_ascii(offs, k - 1, sep);
        lemma_dec_rep_ascii(offs[k] as nat);
    }
}

/// The whole number list is ASCII whenever its separator is.
pub proof fn lemma_toc_numbers_ascii(d: DiscData, sep: u8)
    requires
        sep < 128,
    ensures
        is_ascii_seq(toc_numbers(d, sep)),
{
    lemma_dec_rep_ascii(d.first as nat);
    lemma_dec_rep_ascii(d.last as nat);
    lemma_dec_rep_ascii(d.offsets[0] as nat);
    lemma_toc_tail_ascii(d.offsets, track_count(d), sep);
}

/// The value hashed at position `t` of the hundred-entry offset table:
/// the leadout at position zero, a track's offset at its track number,
/// zero elsewhere.
pub open spec fn toc_entry(d: DiscData, t: int) -> int {
    if t == 0 {
        d.offsets[0]
    } else if d.first <= t <= d.last {
        d.offsets[t - d.first + 1]
    } else {
        0
    }
}

/// The hashed rendering of the first `n` table entries, eight upper-case
/// hexadecimal digits each.
pub open spec fn sha_entries(d: DiscData, n: int) -> Seq<u8>
    decreases n,
{
    if n <= 0 {
        Seq::<u8>::empty()
    } else {
        sha_entries(d, n - 1) + hex_rep(toc_entry(d, n - 1) as u32, 8, true)
    }
}

/// The byte string whose SHA-1 digest identifies the disc: the two track
/// limits as two upper-case hexadecimal digits each, then all hundred
/// table entries as eight digits each.
pub open spec fn sha_input(d: DiscData) -> Seq<u8> {
    hex_rep(d.first as u32, 2, true) + hex_rep(d.last as u32, 2, true) + sha_entries(d, 100)
}

/// The disc identifier: the digest of the table of contents, base64
/// rendered in the disc-identifier alphabet.
pub open spec fn disc_id_bytes(d: DiscData) -> Seq<u8> {
    b64_rep(sha1_of(sha_input(d)))
}

/// The digit-sum contribution of the first `k` tracks to the freedb
/// identifier, each track counted by the digit sum of its starting second.
pub open spec fn freedb_n(offs: Seq<int>, k: int) -> int
    decreases k,
{
    if k <= 0 {
        0
    } else {
        freedb_n(offs, k - 1) + digit_sum(offs[k] / 75)
    }
}

/// The playing time of the disc in whole seconds, first track to leadout.
pub open spec fn freedb_t(d: DiscData) -> int {
    d.offsets[0] / 75 - d.offsets[1] / 75
}

/// The 32-bit freedb identifier: digit-sum residue, playing time, and
/// track count packed into one word.
pub open spec fn freedb_value(d: DiscData) -> u32 {
    (((freedb_n(d.offsets, track_count(d)) % 255) as u32) << 24) | ((freedb_t(d) as u32) << 8)
        | (track_count(d) as u32)
}

/// The freedb identifier as eight lower-case hexadecimal digits.
pub open spec fn freedb_bytes(d: DiscData) -> Seq<u8> {
    hex_rep(freedb_value(d), 8, false)
}

/// The rendering a debugging view shows: the word `DiscId` and the
/// space-joined table of contents.
pub open spec fn debug_chars(d: DiscData) -> Seq<char> {
    "DiscId "@ + ascii_chars(toc_numbers(d, 32))
}

/// The submission address: the attachment endpoint with the disc
/// identifier, the track count, and the plus-joined table of contents.
pub open spec fn submission_url_chars(d: DiscData) -> Seq<char> {
    "http://musicbrainz.org/cdtoc/attach?id="@ + ascii_chars(disc_id_bytes(d)) + "&tracks="@
        + ascii_chars(dec_rep(track_count(d) as nat)) + "&toc="@ + ascii_chars(
        toc_numbers(d, 43),
    )
}

/// A disc's table of contents, held as owned values: the track limits,
/// the offset table (leadout first), and the media catalog number and
/// per-track ISRC texts, empty unless a device read supplied them.
pub struct DiscId {
    first: i32,
    last: i32,
    offsets: Vec<i32>,
    mcn: String,
    isrcs: Vec<String>,
}

impl View for DiscId {
    type V = DiscData;

    closed spec fn view(&self) -> DiscData {
        DiscData {
            first: self.first as int,
            last: self.last as int,
            offsets: int_values(self.offsets@),
            mcn: self.mcn@,
            isrcs: self.isrcs@.map_values(|s: String| s@),
        }
    }
}

/// For every successful offset construction, the last track number is the
/// first track number plus the offset count minus two: the table carries
/// one entry per track and the leadout sentinel besides.
pub proof fn lemma_last_track(first: int, n_offsets: int)
    requires
        valid_limits(first, n_offsets),
    ensures
        spec_last(first, n_offsets) == first + n_offsets - 2,
        1 <= first <= spec_last(first, n_offsets) <= 99,
{
}

/// Track lengths chain the offsets: every track but the last is exactly as
/// long as the gap to the next track's offset, and the last track runs to
/// the leadout sentinel.
pub proof fn lemma_track_lengths(d: DiscData, t: int)
    requires
        wf_data(d),
        d.first <= t <= d.last,
    ensures
        t < d.last ==> track_length_of(d, t) == track_offset_of(d, t + 1) - track_offset_of(d, t),
        t == d.last ==> track_length_of(d, t) == d.offsets[0] - track_offset_of(d, t),
{
}

impl DiscId {
    /// The well-formedness every constructor establishes and every
    /// accessor relies on.
    pub open spec fn wf(&self) -> bool {
        wf_data(self@)
    }

    /// Builds a disc from already-validated parts: the first track number,
    /// the offset table (leadout first), and the media catalog number and
    /// per-track ISRC texts a device read supplied. Fails, with the fault
    /// named, on track limits outside one to ninety-nine, on an offset
    /// that is negative or past the leadout, and on an ISRC list that does
    /// not match the track count.
    pub fn from_parts(first: i32, offsets: Vec<i32>, mcn: String, isrcs: Vec<String>) -> (r:
        Result<DiscId, String>)
        ensures
            r.is_ok() <==> valid_limits(first as int, offsets@.len() as int) && valid_offsets(
                int_values(offsets@),
            ) && isrcs@.len() == offsets@.len() - 1,
            r matches Ok(d) ==> {
                &&& d.wf()
                &&& d@.first == first as int
                &&& d@.last == spec_last(first as int, offsets@.len() as int)
                &&& d@.offsets == int_values(offsets@)
                &&& d@.mcn == mcn@
                &&& d@.isrcs == isrcs@.map_values(|s: String| s@)
            },
            !valid_limits(first as int, offsets@.len() as int) ==> (r matches Err(m) && m@
                == "Illegal track limits"@),
            valid_limits(first as int, offsets@.len() as int) && !valid_offsets(
                int_values(offsets@),
            ) ==> (r matches Err(m) && m@ == "Invalid track offsets"@),
            valid_limits(first as int, offsets@.len() as int) && valid_offsets(
                int_values(offsets@),
            ) && isrcs@.len() != offsets@.len() - 1 ==> (r matches Err(m) && m@
                == "Wrong number of ISRC entries"@),
    {
        let n = offsets.len();
        if first < 1 || first > 99 || n < 2 || n - 2 > (99 - first) as usize {
            return Err("Illegal track limits".to_owned());
        }
        proof {
            assert(valid_limits(first as int, offsets@.len() as int));
        }
        if offsets[0] < 0 {
            proof {
                assert(int_values(offsets@)[0] == offsets@[0] as int);
            }
            return Err("Invalid track offsets".to_owned());
        }
        let lead = offsets[0];
        let mut i: usize = 1;
        while i < n
            invariant
                1 <= i <= n,
                n == offsets@.len(),
                valid_limits(first as int, offsets@.len() as int),
                lead == offsets@[0],
                0 <= lead,
                forall|j: int| 1 <= j < i ==> 0 <= #[trigger] offsets@[j] <= lead,
            decreases n - i,
        {
            if offsets[i] < 0 || offsets[i] > lead {
                proof {
                    assert(int_values(offsets@)[i as int] == offsets@[i as int] as int);
                    assert(int_values(offsets@)[0] == offsets@[0] as int);
                    assert(!valid_offsets(int_values(offsets@)));
                }
                return Err("Invalid track offsets".to_owned());
            }
            i += 1;
        }
        proof {
            assert forall|j: int| 1 <= j < int_values(offsets@).len() implies 0
                <= #[trigger] int_values(offsets@)[j] <= int_values(offsets@)[0] by {
                assert(int_values(offsets@)[j] == offsets@[j] as int);
                assert(int_values(offsets@)[0] == offsets@[0] as int);
            }
        }
        if isrcs.len() != n - 1 {
            return Err("Wrong number of ISRC entries".to_owned());
        }
        let last: i32 = first + (n as i32 - 2);
        let d = DiscId { first, last, offsets, mcn, isrcs };
        proof {
            assert(valid_offsets(int_values(d.offsets@)));
            assert(d.wf());
        }
        Ok(d)
    }

    /// Builds a disc purely from numeric table-of-contents data: the first
    /// track number and the offset list whose head is the leadout sector
    /// count. No device is touched; the media catalog number and every
    /// ISRC come out empty. Fails exactly on the inputs `from_parts`
    /// rejects, with the same messages.
    pub fn put(first: i32, offsets: &[i32]) -> (r: Result<DiscId, String>)
        ensures
            r.is_ok() <==> valid_limits(first as int, offsets@.len() as int) && valid_offsets(
                int_values(offsets@),
            ),
            r matches Ok(d) ==> {
                &&& d.wf()
                &&& d@.first == first as int
                &&& d@.last == spec_last(first as int, offsets@.len() as int)
                &&& d@.offsets == int_values(offsets@)
                &&& d@.mcn.len() == 0
                &&& d@.isrcs.len() == offsets@.len() - 1
                &&& forall|i: int| 0 <= i < d@.isrcs.len() ==> d@.isrcs[i].len() == 0
            },
            !valid_limits(first as int, offsets@.len() as int) ==> (r matches Err(m) && m@
                == "Illegal track limits"@),
            valid_limits(first as int, offsets@.len() as int) && !valid_offsets(
                int_values(offsets@),
            ) ==> (r matches Err(m) && m@ == "Invalid track offsets"@),
    {
        let owned = vstd::slice::slice_to_vec(offsets);
        let mut isrcs: Vec<String> = Vec::new();
        let n = owned.len();
        let bound: usize = if n >= 1 {
            n - 1
        } else {
            0
        };
        let mut k: usize = 0;
        while k < bound
            invariant
                k <= bound,
                bound == if n >= 1 { (n - 1) as int } else { 0 },
                isrcs@.len() == k,
                forall|i: int| 0 <= i < k ==> #[trigger] isrcs@[i]@.len() == 0,
            decreases bound - k,
        {
            isrcs.push(String::new());
            k += 1;
        }
        DiscId::from_parts(first, owned, String::new(), isrcs)
    }

    /// The first track number.
    pub fn first_track_num(&self) -> (r: i32)
        requires
            self.wf(),
        ensures
            r as int == self@.first,
    {
        self.first
    }

    /// The last track number.
    pub fn last_track_num(&self) -> (r: i32)
        requires
            self.wf(),
        ensures
            r as int == self@.last,
    {
        self.last
    }

    /// The total sector count of the disc: the leadout entry of the table.
    pub fn sectors(&self) -> (r: i32)
        requires
            self.wf(),
        ensures
            r as int == self@.offsets[0],
    {
        self.offsets[0]
    }

    /// The starting sector of a track.
    pub fn track_offset(&self, track: i32) -> (r: i32)
        requires
            self.wf(),
            self@.first <= track as int <= self@.last,
        ensures
            r as int == track_offset_of(self@, track as int),
    {
        self.offsets[(track - self.first + 1) as usize]
    }

    /// The length of a track in sectors.
    pub fn track_length(&self, track: i32) -> (r: i32)
        requires
            self.wf(),
            self@.first <= track as int <= self@.last,
        ensures
            r as int == track_length_of(self@, track as int),
    {
        let k = (track - self.first + 1) as usize;
        proof {
            assert(self@.offsets[k as int] == self.offsets@[k as int] as int);
            assert(self@.offsets[0] == self.offsets@[0] as int);
            if (track as int) < self@.last {
                assert(self@.offsets[k + 1] == self.offsets@[k + 1] as int);
            }
        }
        let next = if track < self.last {
            self.offsets[k + 1]
        } else {
            self.offsets[0]
        };
        next - self.offsets[k]
    }

    /// The media catalog number a device read supplied; empty otherwise.
    pub fn mcn(&self) -> (r: String)
        requires
            self.wf(),
        ensures
            r@ == self@.mcn,
    {
        self.mcn.clone()
    }

    /// The ISRC of a track, as a device read supplied it; empty otherwise.
    pub fn track_isrc(&self, track: i32) -> (r: String)
        requires
            self.wf(),
            self@.first <= track as int <= self@.last,
        ensures
            r@ == self@.isrcs[track - self@.first],
    {
        self.isrcs[(track - self.first) as usize].clone()
    }

    /// The number list of the table of contents joined by `sep`, as bytes.
    fn toc_number_bytes(&self, sep: u8) -> (r: Vec<u8>)
        requires
            self.wf(),
        ensures
            r@ == toc_numbers(self@, sep),
    {
        let mut out: Vec<u8> = Vec::new();
        push_dec(&mut out, self.first as u32);
        out.push(sep);
        push_dec(&mut out, self.last as u32);
        out.push(sep);
        push_dec(&mut out, self.offsets[0] as u32);
        let ghost head = dec_rep(self@.first as nat) + seq![sep] + dec_rep(self@.last as nat)
            + seq![sep] + dec_rep(self@.offsets[0] as nat);
        proof {
            assert(out@ =~= head + toc_tail(self@.offsets, 0, sep));
        }
        let n = self.offsets.len();
        let mut k: usize = 1;
        while k < n
            invariant
                1 <= k <= n,
                self.wf(),
                n == self.offsets@.len(),
                out@ == head + toc_tail(self@.offsets, k - 1, sep),
            decreases n - k,
        {
            out.push(sep);
            push_dec(&mut out, self.offsets[k] as u32);
            proof {
                assert(self@.offsets[k as int] == self.offsets@[k as int] as int);
                assert(out@ =~= head + toc_tail(self@.offsets, k as int, sep));
            }
            k += 1;
        }
        proof {
            assert(track_count(self@) == n - 1);
        }
        out
    }

    /// The table of contents as text: first track, last track, leadout,
    /// and each track's offset, space-separated.
    pub fn toc_string(&self) -> (r: String)
        requires
            self.wf(),
        ensures
            r@ == ascii_chars(toc_numbers(self@, 32)),
    {
        let bytes = self.toc_number_bytes(32);
        proof {
            lemma_toc_numbers_ascii(self@, 32);
        }
        string_from_ascii(bytes)
    }

    /// The rendering a debugging view shows: `DiscId` and the table of
    /// contents on one line.
    pub fn debug_string(&self) -> (r: String)
        requires
            self.wf(),
        ensures
            r@ == debug_chars(self@),
    {
        let mut s = String::new();
        s.append("DiscId ");
        let t = self.toc_string();
        s.append(t.as_str());
        proof {
            assert(s@ =~= debug_chars(self@));
        }
        s
    }

    /// The disc identifier: the SHA-1 digest of the padded table of
    /// contents, rendered in the disc-identifier base64 alphabet.
    pub fn id(&self) -> (r: String)
        requires
            self.wf(),
        ensures
            r@ == ascii_chars(disc_id_bytes(self@)),
    {
        let mut input: Vec<u8> = Vec::new();
        push_hex(&mut input, self.first as u32, 2, true);
        push_hex(&mut input, self.last as u32, 2, true);
        let ghost head = hex_rep(self@.first as u32, 2, true) + hex_rep(
            self@.last as u32,
            2,
            true,
        );
        proof {
            assert(input@ =~= head + sha_entries(self@, 0));
        }
        let mut t: i32 = 0;
        while t < 100
            invariant
                0 <= t <= 100,
                self.wf(),
                input@ == head + sha_entries(self@, t as int),
            decreases 100 - t,
        {
            let v: i32 = if t == 0 {
                self.offsets[0]
            } else if self.first <= t && t <= self.last {
                self.offsets[(t - self.first + 1) as usize]
            } else {
                0
            };
            proof {
                assert(v as int == toc_entry(self@, t as int));
            }
            push_hex(&mut input, v as u32, 8, true);
            proof {
                assert(input@ =~= head + sha_entries(self@, t + 1));
            }
            t += 1;
        }
        let digest = sha1_digest(&input);
        let encoded = b64_encode(&digest);
        proof {
            lemma_b64_rep_ascii(digest@);
        }
        string_from_ascii(encoded)
    }

    /// The freedb identifier: digit-sum residue of the track starting
    /// seconds, the playing time, and the track count, packed into one
    /// word and rendered as eight lower-case hexadecimal digits.
    pub fn freedb_id(&self) -> (r: String)
        requires
            self.wf(),
        ensures
            r@ == ascii_chars(freedb_bytes(self@)),
    {
        let n = self.offsets.len();
        let mut sum: u64 = 0;
        let mut k: usize = 1;
        while k < n
            invariant
                1 <= k <= n,
                self.wf(),
                n == self.offsets@.len(),
                sum == freedb_n(self@.offsets, k - 1),
                sum <= (k - 1) * 0x7fffffffu64,
            decreases n - k,
        {
            let off = self.offsets[k];
            let ds = digit_sum_exec(off as u32 / 75);
            proof {
                assert(self@.offsets[k as int] == off as int);
                assert(off as u32 / 75 == self@.offsets[k as int] / 75);
                lemma_digit_sum_le(self@.offsets[k as int] / 75);
                assert(sum + ds <= k * 0x7fffffffu64) by (nonlinear_arith)
                    requires
                        sum <= (k - 1) * 0x7fffffffu64,
                        ds <= 0x7fffffffu64,
                        k >= 1,
                ;
            }
            sum = sum + ds as u64;
            k += 1;
        }
        proof {
            lemma_freedb_n_nonneg(self@.offsets, n - 1);
        }
        let n_mod: u32 = (sum % 255) as u32;
        let lead_sec: u32 = self.offsets[0] as u32 / 75;
        let first_sec: u32 = self.offsets[1] as u32 / 75;
        proof {
            vstd::arithmetic::div_mod::lemma_div_is_ordered(
                self@.offsets[1],
                self@.offsets[0],
                75,
            );
        }
        let t_sec: u32 = lead_sec - first_sec;
        let tracks: u32 = (n - 1) as u32;
        let value: u32 = (n_mod << 24u32) | (t_sec << 8u32) | tracks;
        proof {
            assert(t_sec as int == freedb_t(self@));
            assert(value == freedb_value(self@));
        }
        let mut out: Vec<u8> = Vec::new();
        push_hex(&mut out, value, 8, false);
        proof {
            lemma_hex_rep_ascii(value, 8, false);
        }
        string_from_ascii(out)
    }

    /// The address at which the table of contents is submitted to the
    /// metadata database, carrying the disc identifier, the track count,
    /// and the plus-joined table of contents.
    pub fn submission_url(&self) -> (r: String)
        requires
            self.wf(),
        ensures
            r@ == submission_url_chars(self@),
    {
        let id_s = self.id();
        let mut url = String::new();
        url.append("http://musicbrainz.org/cdtoc/attach?id=");
        url.append(id_s.as_str());
        url.append("&tracks=");
        let mut cnt: Vec<u8> = Vec::new();
        push_dec(&mut cnt, (self.last - self.first + 1) as u32);
        proof {
            lemma_dec_rep_ascii(track_count(self@) as nat);
        }
        let cnt_s = string_from_ascii(cnt);
        url.append(cnt_s.as_str());
        url.append("&toc=");
        let toc = self.toc_number_bytes(43);
        proof {
            lemma_toc_numbers_ascii(self@, 43);
        }
        let toc_s = string_from_ascii(toc);
        url.append(toc_s.as_str());
        proof {
            assert(url@ =~= submission_url_chars(self@));
        }
        url
    }
}

/// The freedb digit sum of any track prefix is non-negative.
pub proof fn lemma_freedb_n_nonneg(offs: Seq<int>, k: int)
    ensures
        0 <= freedb_n(offs, k),
    decreases k,
{
    if k > 0 {
        lemma_freedb_n_nonneg(offs, k - 1);
        lemma_digit_sum_le(offs[k] / 75);
    }
}

} // verus!
