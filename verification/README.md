# my_service_bus

The core of a message bus, verified with Verus: topics hold queues of message ids,
subscribers of a queue get packages of messages, and report which of them arrived.

## Layout

- `src/queue_with_intervals.rs` — a set of message ids kept as sorted, separated ranges.
- `src/messages_page.rs` — pages of messages and the cache of loaded pages.
- `src/topics.rs` — topics: the last message id of each, its queues and its cache of pages.
- `src/queues/` — a queue of a topic (ids waiting, subscribers, delivery attempts), the list
  of queues of a topic, delivery buckets and the iterator that walks a queue in id order.
- `src/queue_subscribers/` — subscribers, their delivery states and metrics.
- `src/operations/` — delivery rounds, confirmations and subscriptions routed through their topic
  (each followed by a delivery round), disconnection, restoring topics and queues from snapshots, the collection of unused queues, and the decisions taken while loading
  pages from the persistence service.
- `src/persistence/` — zip framing of page payloads, cutting them into chunks, and the errors of
  the persistence service.
- `app/main.rs` — the service around the library: settings, the retries with pauses while the
  persistence service is out of reach, the restore at start and the one-second timer.

Public functions state their results in `ensures`, apart from the subscriber-id generator, whose
counter is an atomic; the laws that relate several functions are public proof functions
(`lemma_*`) next to the functions they are about.
