//! What the Edge's gauges say of its certificates.

use vstd::prelude::*;
use crate::edge::certificate_store::{CertEntry, CertSource};

verus! {

/// The gauges of the certificates of one source.
#[derive(Debug, Clone, Copy, PartialEq, Eq, Structural)]
pub struct CertificateGauges {
    pub valid: u64,
    pub expired: u64,
    /// The smallest remaining validity, in seconds; 0 without a certificate
    pub min_remaining_secs: i64,
}

/// How many certificates a source has.
pub open spec fn count(entries: Seq<CertEntry>, source: CertSource) -> nat
    decreases entries.len(),
{
    if entries.len() == 0 {
        0
    } else {
        count(entries.drop_last(), source) + if entries.last().source == source {
            1nat
        } else {
            0
        }
    }
}

/// How many expired certificates a source has.
pub open spec fn count_expired(entries: Seq<CertEntry>, source: CertSource, now: i64) -> nat
    decreases entries.len(),
{
    if entries.len() == 0 {
        0
    } else {
        count_expired(entries.drop_last(), source, now) + if entries.last().source == source && now
            >= entries.last().not_after {
            1nat
        } else {
            0
        }
    }
}

/// The smallest remaining validity among the certificates of a source.
pub open spec fn min_remaining(entries: Seq<CertEntry>, source: CertSource, now: i64) -> Option<int>
    decreases entries.len(),
{
    if entries.len() == 0 {
        None
    } else {
        let before = min_remaining(entries.drop_last(), source, now);
        let left = entries.last().not_after - now;
        if entries.last().source != source {
            before
        } else if before is Some && before->0 <= left {
            before
        } else {
            Some(left)
        }
    }
}

/// Whether gauges are those of the certificates of a source.
pub open spec fn is_gauge(
    g: CertificateGauges,
    entries: Seq<CertEntry>,
    source: CertSource,
    now: i64,
) -> bool {
    &&& g.valid == count(entries, source) - count_expired(entries, source, now)
    &&& g.expired == count_expired(entries, source, now)
    &&& g.min_remaining_secs == (match min_remaining(entries, source, now) {
        Some(n) => n,
        None => 0,
    })
}

/// The gauges of the certificates of a source. Without a certificate they are
/// reset: else they would keep reporting the last one after it was removed, and
/// alerts would fire (or stay quiet) against a certificate that no longer exists.
pub fn certificate_gauges(entries: &Vec<CertEntry>, source: CertSource, now: i64) -> (r:
    CertificateGauges)
    requires
        forall|i: int|
            0 <= i < entries@.len() ==> i64::MIN <= (#[trigger] entries@[i]).not_after - now
                <= i64::MAX,
    ensures
        is_gauge(r, entries@, source, now),
{
    let mut valid: u64 = 0;
    let mut expired: u64 = 0;
    let mut min: Option<i64> = None;
    let mut i: usize = 0;
    while i < entries.len()
        invariant
            i <= entries.len(),
            valid + expired <= i,
            valid + expired == count(entries@.take(i as int), source),
            expired == count_expired(entries@.take(i as int), source, now),
            (match min {
                Some(n) => Some(n as int),
                None => None,
            }) == min_remaining(entries@.take(i as int), source, now),
        decreases entries.len() - i,
    {
        assert(entries@.take(i + 1).drop_last() =~= entries@.take(i as int));
        assert(entries@.take(i + 1).last() == entries@[i as int]);
        let e: &CertEntry = &entries[i];
        if e.source == source {
            if e.is_expired(now) {
                expired += 1;
            } else {
                valid += 1;
            }
            let left: i64 = e.remaining_secs(now);
            match min {
                Some(n) => {
                    if left < n {
                        min = Some(left);
                    }
                },
                None => {
                    min = Some(left);
                },
            }
        }
        i += 1;
    }
    assert(entries@.take(i as int) =~= entries@);
    CertificateGauges {
        valid,
        expired,
        min_remaining_secs: match min {
            Some(n) => n,
            None => 0,
        },
    }
}

/// The gauges of the certificates that were configured and of those that were
/// ordered.
pub fn update_certificates(entries: &Vec<CertEntry>, now: i64) -> (r: (
    CertificateGauges,
    CertificateGauges,
))
    requires
        forall|i: int|
            0 <= i < entries@.len() ==> i64::MIN <= (#[trigger] entries@[i]).not_after - now
                <= i64::MAX,
    ensures
        is_gauge(r.0, entries@, CertSource::Byoc, now),
        is_gauge(r.1, entries@, CertSource::Acme, now),
{
    (
        certificate_gauges(entries, CertSource::Byoc, now),
        certificate_gauges(entries, CertSource::Acme, now),
    )
}

/// A certificate more is counted once, as valid or as expired, where it is of the source; the
/// least time that remains is that of the certificate that expires first.
pub proof fn law_certificates_are_counted_by_validity(
    fewer: Vec<CertEntry>,
    entries: Vec<CertEntry>,
    e: CertEntry,
    source: CertSource,
    now: i64,
    less: CertificateGauges,
    r: CertificateGauges,
    both: (CertificateGauges, CertificateGauges),
)
    requires
        entries@ == fewer@.push(e),
        forall|i: int|
            0 <= i < entries@.len() ==> i64::MIN <= (#[trigger] entries@[i]).not_after - now
                <= i64::MAX,
        forall|i: int|
            0 <= i < fewer@.len() ==> i64::MIN <= (#[trigger] fewer@[i]).not_after - now
                <= i64::MAX,
        call_ensures(certificate_gauges, (&fewer, source, now), less),
        call_ensures(certificate_gauges, (&entries, source, now), r),
        call_ensures(update_certificates, (&entries, now), both),
    ensures
        fewer@.len() == 0 ==> less.valid == 0 && less.expired == 0 && less.min_remaining_secs == 0,
        e.source != source ==> r.valid == less.valid && r.expired == less.expired
            && r.min_remaining_secs == less.min_remaining_secs,
        e.source == source && now < e.not_after ==> r.valid == less.valid + 1 && r.expired
            == less.expired,
        e.source == source && now >= e.not_after ==> r.valid == less.valid && r.expired
            == less.expired + 1,
        e.source == source ==> r.min_remaining_secs <= e.not_after - now,
        e.source == source && less.valid + less.expired == 0 ==> r.min_remaining_secs == e.not_after
            - now,
        e.source == source && less.valid + less.expired > 0 ==> r.min_remaining_secs
            <= less.min_remaining_secs && (r.min_remaining_secs == less.min_remaining_secs
            || r.min_remaining_secs == e.not_after - now),
        source is Byoc ==> both.0.valid == r.valid && both.0.expired == r.expired
            && both.0.min_remaining_secs == r.min_remaining_secs,
        source is Acme ==> both.1.valid == r.valid && both.1.expired == r.expired
            && both.1.min_remaining_secs == r.min_remaining_secs,
{
    assert(entries@.drop_last() =~= fewer@);
    assert(entries@.last() == e);
    lemma_counted(fewer@, source, now);
}

proof fn lemma_counted(entries: Seq<CertEntry>, source: CertSource, now: i64)
    ensures
        min_remaining(entries, source, now) is Some == (count(entries, source) > 0),
        count_expired(entries, source, now) <= count(entries, source),
    decreases entries.len(),
{
    if entries.len() > 0 {
        lemma_counted(entries.drop_last(), source, now);
    }
}

} // verus!
