use vstd::prelude::*;

verus! {

/// What the cache knows of one stored entry.
#[derive(Debug, Clone)]
pub struct CacheMetadata {
    pub key: String,
    pub size_bytes: u64,
    pub created_at: i64,
    pub last_accessed: i64,
    pub access_count: u64,
    pub expires_at: Option<i64>,
}

/// A cached value with its timestamps.
#[derive(Debug, Clone)]
pub struct CacheEntry<T> {
    pub data: T,
    pub timestamp: i64,
    pub expires_at: Option<i64>,
}

#[derive(Debug, Clone)]
pub struct CacheStats {
    pub total_entries: usize,
    pub total_size_bytes: u64,
    pub oldest_entry_timestamp: Option<i64>,
    pub max_access_count: u64,
}

#[derive(Debug, Clone)]
pub struct JournalStats {
    pub total_entries: usize,
    pub file_size_bytes: u64,
    pub created_at: Option<i64>,
    pub last_modified: Option<i64>,
}

/// The index of a file cache: its directory and one metadata record per key.
/// Reading and writing the files is left to the caller.
#[derive(Debug, Clone)]
pub struct FileCache {
    pub cache_dir: String,
    pub metadata: Vec<CacheMetadata>,
    pub metadata_file: String,
}

/// Whether `std` counts a character as alphanumeric.
pub uninterp spec fn alphanumeric(c: char) -> bool;

/// Relies on `char::is_alphanumeric` (Unicode alphabetic or numeric).
#[verifier::external_body]
fn is_alphanumeric(c: char) -> (r: bool)
    ensures
        r == alphanumeric(c),
{
    c.is_alphanumeric()
}

/// A key made safe as a file name: alphanumerics, `_` and `-` stay, anything
/// else becomes `_`.
pub open spec fn sanitized(key: Seq<char>) -> Seq<char> {
    key.map_values(|c: char| if alphanumeric(c) || c == '_' || c == '-' { c } else { '_' })
}

pub open spec fn sum_sizes(ms: Seq<CacheMetadata>) -> int
    decreases ms.len(),
{
    if ms.len() == 0 {
        0
    } else {
        sum_sizes(ms.drop_last()) + ms.last().size_bytes
    }
}

pub open spec fn min_created(ms: Seq<CacheMetadata>) -> Option<i64>
    decreases ms.len(),
{
    if ms.len() == 0 {
        None
    } else {
        match min_created(ms.drop_last()) {
            Some(m) => if ms.last().created_at < m { Some(ms.last().created_at) } else { Some(m) },
            None => Some(ms.last().created_at),
        }
    }
}

pub open spec fn max_access(ms: Seq<CacheMetadata>) -> int
    decreases ms.len(),
{
    if ms.len() == 0 {
        0
    } else {
        let m = max_access(ms.drop_last());
        if ms.last().access_count > m { ms.last().access_count as int } else { m }
    }
}

/// Cache key of a price history request.
pub fn cache_key_for_ohlc(symbol: &str, start: &str, end: &str, timeframe: &str) -> (r: String)
    ensures
        r@ == "ohlc_"@ + symbol@ + "_"@ + start@ + "_"@ + end@ + "_"@ + timeframe@,
{
    let mut k = String::from_str("ohlc_");
    k.append(symbol);
    k.append("_");
    k.append(start);
    k.append("_");
    k.append(end);
    k.append("_");
    k.append(timeframe);
    k
}

/// Cache key of a quote.
pub fn cache_key_for_quote(symbol: &str) -> (r: String)
    ensures
        r@ == "quote_"@ + symbol@,
{
    let mut k = String::from_str("quote_");
    k.append(symbol);
    k
}

/// Decimal digits of a number, most significant first.
pub open spec fn decimal(n: nat) -> Seq<char>
    decreases n,
{
    if n < 10 {
        seq![digit_char(n)]
    } else {
        decimal(n / 10).push(digit_char(n % 10))
    }
}

pub open spec fn digit_char(d: nat) -> char {
    if d == 0 { '0' } else if d == 1 { '1' } else if d == 2 { '2' } else if d == 3 { '3' }
    else if d == 4 { '4' } else if d == 5 { '5' } else if d == 6 { '6' } else if d == 7 { '7' }
    else if d == 8 { '8' } else { '9' }
}

fn digit_str(d: u64) -> (r: &'static str)
    requires
        d < 10,
    ensures
        r@ == seq![digit_char(d as nat)],
{
    proof {
        reveal_strlit("0");
        reveal_strlit("1");
        reveal_strlit("2");
        reveal_strlit("3");
        reveal_strlit("4");
        reveal_strlit("5");
        reveal_strlit("6");
        reveal_strlit("7");
        reveal_strlit("8");
        reveal_strlit("9");
    }
    if d == 0 { "0" } else if d == 1 { "1" } else if d == 2 { "2" } else if d == 3 { "3" }
    else if d == 4 { "4" } else if d == 5 { "5" } else if d == 6 { "6" } else if d == 7 { "7" }
    else if d == 8 { "8" } else { "9" }
}

/// Appends the decimal form of `n`.
pub fn push_decimal(s: &mut String, n: u64)
    ensures
        final(s)@ == old(s)@ + decimal(n as nat),
    decreases n,
{
    if n < 10 {
        s.append(digit_str(n));
    } else {
        push_decimal(s, n / 10);
        s.append(digit_str(n % 10));
        assert(final(s)@ =~= old(s)@ + decimal(n as nat));
    }
}

/// Cache key of a news request.
pub fn cache_key_for_news(symbol: &str, days: u32) -> (r: String)
    ensures
        r@ == "news_"@ + symbol@ + "_"@ + decimal(days as nat),
{
    let mut k = String::from_str("news_");
    k.append(symbol);
    k.append("_");
    push_decimal(&mut k, days as u64);
    k
}

impl FileCache {
    /// An empty index for files under `cache_dir`.
    pub fn with_dir(cache_dir: &str) -> (r: FileCache)
        ensures
            r.cache_dir@ == cache_dir@,
            r.metadata@.len() == 0,
            r.metadata_file@ == cache_dir@ + "/metadata.json"@,
    {
        let mut metadata_file = String::from_str(cache_dir);
        metadata_file.append("/metadata.json");
        FileCache { cache_dir: String::from_str(cache_dir), metadata: Vec::new(), metadata_file }
    }

    /// The keys held, in index order.
    pub fn get_keys(&self) -> (r: Vec<String>)
        ensures
            r@.len() == self.metadata@.len(),
            forall|i: int| 0 <= i < r@.len() ==> #[trigger] r@[i]@ == self.metadata@[i].key@,
    {
        let mut keys: Vec<String> = Vec::new();
        let mut i: usize = 0;
        while i < self.metadata.len()
            invariant
                i <= self.metadata@.len(),
                keys@.len() == i,
                forall|j: int| 0 <= j < i ==> #[trigger] keys@[j]@ == self.metadata@[j].key@,
            decreases self.metadata@.len() - i,
        {
            keys.push(self.metadata[i].key.clone());
            i = i + 1;
        }
        keys
    }

    /// Entry count, total size (capped at `u64::MAX`), oldest creation time
    /// and largest access count.
    pub fn get_stats(&self) -> (r: CacheStats)
        ensures
            r.total_entries == self.metadata@.len(),
            r.total_size_bytes == (if sum_sizes(self.metadata@) > u64::MAX { u64::MAX as int } else { sum_sizes(self.metadata@) }),
            r.oldest_entry_timestamp == min_created(self.metadata@),
            r.max_access_count == max_access(self.metadata@),
    {
        let mut total: u128 = 0;
        let mut oldest: Option<i64> = None;
        let mut most: u64 = 0;
        let n = self.metadata.len();
        let mut i: usize = 0;
        while i < n
            invariant
                n == self.metadata@.len(),
                i <= n,
                total == (if sum_sizes(self.metadata@.subrange(0, i as int)) > u64::MAX { u64::MAX as int + 1 } else { sum_sizes(self.metadata@.subrange(0, i as int)) }),
                oldest == min_created(self.metadata@.subrange(0, i as int)),
                most == max_access(self.metadata@.subrange(0, i as int)),
            decreases n - i,
        {
            let m = &self.metadata[i];
            proof {
                let sub = self.metadata@.subrange(0, i as int + 1);
                assert(sub.drop_last() =~= self.metadata@.subrange(0, i as int));
                assert(sub.last() == *m);
            }
            total = total + m.size_bytes as u128;
            if total > u64::MAX as u128 {
                total = u64::MAX as u128 + 1;
            }
            oldest = match oldest {
                Some(o) => if m.created_at < o { Some(m.created_at) } else { Some(o) },
                None => Some(m.created_at),
            };
            if m.access_count > most {
                most = m.access_count;
            }
            i = i + 1;
        }
        assert(self.metadata@.subrange(0, n as int) =~= self.metadata@);
        CacheStats {
            total_entries: n,
            total_size_bytes: if total > u64::MAX as u128 { u64::MAX } else { total as u64 },
            oldest_entry_timestamp: oldest,
            max_access_count: most,
        }
    }

    /// Forgets every entry and returns the keys whose files the caller should
    /// delete.
    pub fn clear(&mut self) -> (r: Vec<String>)
        ensures
            final(self).metadata@.len() == 0,
            final(self).cache_dir == old(self).cache_dir,
            final(self).metadata_file == old(self).metadata_file,
            r@.len() == old(self).metadata@.len(),
            forall|i: int| 0 <= i < r@.len() ==> #[trigger] r@[i]@ == old(self).metadata@[i].key@,
    {
        let keys = self.get_keys();
        self.metadata = Vec::new();
        keys
    }

    /// Path of the file that stores `key`: the sanitized key with a `.json`
    /// extension, under the cache directory.
    pub fn get_file_path(&self, key: &str) -> (r: String)
        ensures
            r@ == self.cache_dir@ + "/"@ + sanitized(key@) + ".json"@,
    {
        let mut path = self.cache_dir.clone();
        path.append("/");
        let ghost start = path@;
        let n = key.unicode_len();
        let mut i: usize = 0;
        proof {
            reveal_strlit("_");
        }
        while i < n
            invariant
                n == key@.len(),
                i <= n,
                path@ == start + sanitized(key@).subrange(0, i as int),
                "_"@ == seq!['_'],
            decreases n - i,
        {
            let c = key.get_char(i);
            if is_alphanumeric(c) || c == '_' || c == '-' {
                path.append(key.substring_char(i, i + 1));
            } else {
                path.append("_");
            }
            assert(sanitized(key@).subrange(0, i as int + 1) =~= sanitized(key@).subrange(0, i as int).push(sanitized(key@)[i as int]));
            assert(path@ =~= start + sanitized(key@).subrange(0, i as int + 1));
            i = i + 1;
        }
        assert(sanitized(key@).subrange(0, n as int) =~= sanitized(key@));
        path.append(".json");
        path
    }
}

/// Whether an entry has expired by `now`.
pub open spec fn expired(m: CacheMetadata, now: int) -> bool {
    match m.expires_at {
        Some(t) => now > t,
        None => false,
    }
}

impl FileCache {
    /// Keys of the entries that have expired by `now`, in index order; the
    /// caller removes their files and calls `forget` for each.
    pub fn expired_keys(&self, now: i64) -> (r: Vec<String>)
        ensures
            r@.map_values(|k: String| k@) == self.metadata@.filter(|m: CacheMetadata| expired(m, now as int)).map_values(
                |m: CacheMetadata| m.key@,
            ),
    {
        let ghost keep = |m: CacheMetadata| expired(m, now as int);
        let mut out: Vec<String> = Vec::new();
        let n = self.metadata.len();
        let mut i: usize = 0;
        while i < n
            invariant
                n == self.metadata@.len(),
                i <= n,
                keep == (|m: CacheMetadata| expired(m, now as int)),
                out@.map_values(|k: String| k@) == self.metadata@.subrange(0, i as int).filter(keep).map_values(
                    |m: CacheMetadata| m.key@,
                ),
            decreases n - i,
        {
            let m = &self.metadata[i];
            let ghost sub = self.metadata@.subrange(0, i as int + 1);
            let ghost prev = out@;
            proof {
                assert(sub.drop_last() =~= self.metadata@.subrange(0, i as int));
                assert(sub.last() == *m);
                reveal(Seq::filter);
            }
            let is_expired = match m.expires_at {
                Some(t) => now > t,
                None => false,
            };
            if is_expired {
                let k = m.key.clone();
                out.push(k);
                assert(out@.map_values(|k: String| k@) =~= prev.map_values(|k: String| k@).push(m.key@));
                assert(sub.filter(keep) == self.metadata@.subrange(0, i as int).filter(keep).push(*m));
                assert(sub.filter(keep).map_values(|m: CacheMetadata| m.key@) =~= self.metadata@.subrange(0, i as int).filter(keep).map_values(|m: CacheMetadata| m.key@).push(m.key@));
            }
            i = i + 1;
        }
        assert(self.metadata@.subrange(0, n as int) =~= self.metadata@);
        out
    }

    /// Drops the entries for `key`.
    pub fn forget(&mut self, key: &str)
        ensures
            final(self).metadata@ == old(self).metadata@.filter(|m: CacheMetadata| m.key@ != key@),
            final(self).cache_dir == old(self).cache_dir,
            final(self).metadata_file == old(self).metadata_file,
    {
        let ghost keep = |m: CacheMetadata| m.key@ != key@;
        let key_s = key.to_owned();
        let mut kept: Vec<CacheMetadata> = Vec::new();
        let mut rest: Vec<CacheMetadata> = Vec::new();
        core::mem::swap(&mut rest, &mut self.metadata);
        let ghost all = rest@;
        let n = rest.len();
        let mut i: usize = 0;
        assert(rest@ =~= all.subrange(0, n as int));
        while i < n
            invariant
                n == all.len(),
                i <= n,
                keep == (|m: CacheMetadata| m.key@ != key@),
                key_s@ == key@,
                rest@ == all.subrange(i as int, n as int),
                kept@ == all.subrange(0, i as int).filter(keep),
                self.cache_dir == old(self).cache_dir,
                self.metadata_file == old(self).metadata_file,
                all == old(self).metadata@,
            decreases n - i,
        {
            let m = rest.remove(0);
            proof {
                let sub = all.subrange(0, i as int + 1);
                assert(sub.drop_last() =~= all.subrange(0, i as int));
                assert(m == all[i as int]);
                assert(sub.last() == m);
                assert(rest@ =~= all.subrange(i as int + 1, n as int));
                reveal(Seq::filter);
            }
            if m.key != key_s {
                kept.push(m);
            }
            i = i + 1;
        }
        assert(all.subrange(0, n as int) =~= all);
        self.metadata = kept;
    }
}

} // verus!
