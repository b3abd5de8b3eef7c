# PECrab

A payment engine that reads transactions from a CSV file, applies them to client
accounts and writes the final accounts. Deposits, withdrawals, disputes, resolves
and chargebacks are supported; amounts are fixed-point decimals.

The library in `src/` is verified with Verus. It decides everything and performs
no input or output. `app/` is the program around it: files, the environment, the
spill store (a redb table in a temporary file) and one Tokio task per client.

| Module       | Holds                                                                 |
|--------------|-----------------------------------------------------------------------|
| `amount`     | fixed-point amounts and their mathematical value                      |
| `text`       | white space and decimal digits                                        |
| `models`     | transactions and account rows, amounts in text                        |
| `account`    | the state machine of one account                                      |
| `record`     | the stored form of a deposit                                          |
| `pending`    | the insertion-ordered buffer of recent deposits                       |
| `mem_budget` | the memory budget that all engines share                              |
| `model`      | what each call of the engine does, as functions on mathematical state |
| `engine`     | the engine                                                            |
| `ledger`     | the engine without storage tiers, and why the tiers do not show       |
| `replay`     | whole streams: clients apart, held funds, nothing below zero          |
| `footprint`  | what an engine owes the budget                                        |
| `dispatch`   | which engine handles which client                                     |
| `parallel`   | one engine per client, over a whole stream                            |
| `env`        | what environment variables mean                                       |
| `errors`     | the errors of the program                                             |

## Handling an event

`Payments::try_apply` starts an event. Where the engine needs its spill store it
returns a `Step` that names the action (read, open, begin, commit); the caller
performs it and hands the outcome to `try_on_read` or `try_on_flush`, until the
step is `Done`. The budget is passed to every call, so that it can be locked for
the call alone.

## What is proved

Each function states exactly what it returns and changes. Beyond that, public
proof functions named `law_...` state what holds of the whole: among others that
an engine comes to the same accounts whatever it spilled, that a transaction ID
is used once, that one engine per client reports what a single engine would, that
held funds are the deposits under dispute, that a locked account never changes, that a
written amount reads back, and that the budget's counter is what the engines owe
it.
